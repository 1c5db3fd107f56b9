//! Failures as workflow commands, annotated on the case's own line.

use vstd::prelude::*;
use crate::outcome::Outcome;
use crate::report::sources::Sources;
use crate::report::lines::locate_spec;
use crate::report::{Report, Sink, failure_lines, failure_text};
use crate::text::{decimal, trimmed_end, views};

verus! {

/// What one character of a message becomes: `%`, `\r` and `\n` are encoded so a command stays
/// on one line.
pub open spec fn message_char(c: char) -> Seq<char> {
    if c == '%' {
        "%25"@
    } else if c == '\r' {
        "%0D"@
    } else if c == '\n' {
        "%0A"@
    } else {
        seq![c]
    }
}

/// What one character of a property becomes: as in a message, and `:` and `,` encoded too.
pub open spec fn property_char(c: char) -> Seq<char> {
    if c == ':' {
        "%3A"@
    } else if c == ',' {
        "%2C"@
    } else {
        message_char(c)
    }
}

/// A workflow command's message, with what would end the command encoded.
pub open spec fn encoded_spec(text: Seq<char>) -> Seq<char>
    decreases text.len(),
{
    if text.len() == 0 {
        Seq::empty()
    } else {
        encoded_spec(text.drop_last()) + message_char(text.last())
    }
}

/// A value inside `file=` or `title=`, where a comma or a colon would end the field.
pub open spec fn property_spec(text: Seq<char>) -> Seq<char>
    decreases text.len(),
{
    if text.len() == 0 {
        Seq::empty()
    } else {
        property_spec(text.drop_last()) + property_char(text.last())
    }
}

/// A command is one line: an encoded message holds no line break, whatever the subject printed.
pub proof fn law_encoded_is_one_line(text: Seq<char>)
    ensures
        forall|i: int|
            0 <= i < encoded_spec(text).len() ==> #[trigger] encoded_spec(text)[i] != '\n' && encoded_spec(
                text,
            )[i] != '\r',
    decreases text.len(),
{
    reveal_strlit("%25");
    reveal_strlit("%0D");
    reveal_strlit("%0A");
    if text.len() > 0 {
        law_encoded_is_one_line(text.drop_last());
        let head = encoded_spec(text.drop_last());
        let tail = message_char(text.last());
        let whole = encoded_spec(text);
        assert forall|i: int| 0 <= i < whole.len() implies #[trigger] whole[i] != '\n' && whole[i] != '\r' by {
            if i < head.len() {
                assert(whole[i] == head[i]);
            } else {
                assert(whole[i] == tail[i - head.len()]);
            }
        }
    }
}

/// A workflow command's message, with what would end the command encoded. `%` is encoded as
/// such, so a literal `%0A` in a subject's output never becomes a line break.
pub fn encoded(text: &str) -> (out: String)
    ensures
        out@ == encoded_spec(text@),
{
    let cs = crate::text::chars_of(text);
    let mut out = String::new();
    let mut i: usize = 0;
    while i < cs.len()
        invariant
            i <= cs.len(),
            cs@ == text@,
            out@ == encoded_spec(cs@.take(i as int)),
        decreases cs.len() - i,
    {
        let c = cs[i];
        if c == '%' {
            out.append("%25");
        } else if c == '\r' {
            out.append("%0D");
        } else if c == '\n' {
            out.append("%0A");
        } else {
            crate::text::push_char(&mut out, c);
        }
        assert(cs@.take(i + 1).drop_last() =~= cs@.take(i as int));
        i = i + 1;
    }
    assert(cs@.take(cs.len() as int) =~= cs@);
    out
}

/// A value inside `file=` or `title=`.
pub fn property(text: &str) -> (out: String)
    ensures
        out@ == property_spec(text@),
{
    let cs = crate::text::chars_of(text);
    let mut out = String::new();
    let mut i: usize = 0;
    while i < cs.len()
        invariant
            i <= cs.len(),
            cs@ == text@,
            out@ == property_spec(cs@.take(i as int)),
        decreases cs.len() - i,
    {
        let c = cs[i];
        if c == ':' {
            out.append("%3A");
        } else if c == ',' {
            out.append("%2C");
        } else if c == '%' {
            out.append("%25");
        } else if c == '\r' {
            out.append("%0D");
        } else if c == '\n' {
            out.append("%0A");
        } else {
            crate::text::push_char(&mut out, c);
        }
        assert(cs@.take(i + 1).drop_last() =~= cs@.take(i as int));
        i = i + 1;
    }
    assert(cs@.take(cs.len() as int) =~= cs@);
    out
}

/// The assertion path an annotation points at: the first one, or `expect` when there is none.
pub open spec fn first_path_spec(o: Outcome) -> Seq<char> {
    if o.diffs@.len() > 0 {
        o.diffs@[0].path@
    } else {
        "expect"@
    }
}

/// The assertion path an annotation points at.
pub fn first_path(outcome: &Outcome) -> (p: &str)
    ensures
        p@ == first_path_spec(*outcome),
{
    if outcome.diffs.len() > 0 {
        outcome.diffs[0].path.as_str()
    } else {
        "expect"
    }
}

/// Lines, each trimmed at its end and followed by a newline.
pub open spec fn trimmed_lines(lines: Seq<Seq<char>>) -> Seq<char>
    decreases lines.len(),
{
    if lines.len() == 0 {
        Seq::empty()
    } else {
        trimmed_lines(lines.drop_last()) + trimmed_end(lines.last()) + "\n"@
    }
}

/// The whole failure, as one message: the name, then each failure line.
pub open spec fn message_spec(o: Outcome, name: Seq<char>) -> Seq<char> {
    name + "\n"@ + trimmed_lines(failure_text(o))
}

/// The whole failure, as one message.
pub fn message(outcome: &Outcome, name: &str) -> (text: String)
    ensures
        text@ == message_spec(*outcome, name@),
{
    let mut text = String::from_str(name);
    text.append("\n");
    let lines = failure_lines(outcome);
    let ghost start = text@;
    let mut i: usize = 0;
    while i < lines.len()
        invariant
            i <= lines@.len(),
            text@ == start + trimmed_lines(views(lines@.take(i as int))),
        decreases lines@.len() - i,
    {
        text.append(crate::text::trim_end(lines[i].as_str()).as_str());
        text.append("\n");
        proof {
            let next = views(lines@.take(i + 1));
            assert(next.drop_last() =~= views(lines@.take(i as int)));
            assert(next.last() == lines@[i as int]@);
        }
        i = i + 1;
    }
    assert(lines@.take(lines@.len() as int) =~= lines@);
    text
}

/// What one failing case writes, given the line its first assertion sits on, if its document is
/// known.
pub open spec fn annotation_text(o: Outcome, found: Option<(Seq<char>, nat)>) -> Seq<char> {
    let level = if o.allow_fail { "warning"@ } else { "error"@ };
    match found {
        None => "::"@ + level + "::"@ + encoded_spec(message_spec(o, o.name@)) + "\n"@,
        Some((path, line)) => "::"@ + level + " file="@ + property_spec(path) + ",line="@ + decimal(line)
            + ",title="@ + property_spec(o.name@) + "::"@ + encoded_spec(message_spec(o, o.name@)) + "\n"@,
    }
}

/// Emits one annotation per failing case, on the line its assertion came from.
pub struct Annotate {
    out: String,
    sources: Sources,
}

impl Annotate {
    /// What this renderer has written so far.
    pub closed spec fn written(&self) -> Seq<char> {
        self.out@
    }

    /// The documents it locates assertions in.
    pub closed spec fn documents(&self) -> Map<Seq<char>, (String, String)> {
        self.sources.documents()
    }

    /// A renderer that can locate any case among `sources`.
    pub fn new(sources: Sources) -> (a: Annotate)
        ensures
            a.written().len() == 0,
            a.documents() == sources.documents(),
    {
        Annotate { out: String::new(), sources }
    }

    /// Everything written so far.
    pub fn text(&self) -> (s: &str)
        ensures
            s@ == self.written(),
    {
        self.out.as_str()
    }

    /// Hands over what was written since the last call, leaving the buffer empty.
    pub fn drain(&mut self) -> (s: String)
        ensures
            s@ == old(self).written(),
            final(self).written().len() == 0,
            final(self).documents() == old(self).documents(),
    {
        let mut s = String::new();
        std::mem::swap(&mut s, &mut self.out);
        s
    }
}

/// Where the first assertion of `o` sits, when its document is among `documents`.
pub open spec fn found_for(o: Outcome, documents: Map<Seq<char>, (String, String)>) -> Option<(Seq<char>, nat)> {
    if documents.contains_key(o.name@) {
        Some((documents[o.name@].0@, locate_spec(documents[o.name@].1@, first_path_spec(o)) as nat))
    } else {
        None
    }
}

impl Sink for Annotate {
    fn case_finished(&mut self, outcome: &Outcome)
        ensures
            final(self).documents() == old(self).documents(),
            outcome.passed ==> final(self).written() == old(self).written(),
            !outcome.passed ==> final(self).written() == old(self).written() + annotation_text(
                *outcome,
                found_for(*outcome, old(self).documents()),
            ),
    {
        if outcome.passed {
            return;
        }
        let level = if outcome.allow_fail { "warning" } else { "error" };
        let text = encoded(message(outcome, outcome.name.as_str()).as_str());
        match self.sources.locate(outcome.name.as_str(), first_path(outcome)) {
            None => {
                let mut line = String::from_str("::");
                line.append(level);
                line.append("::");
                line.append(text.as_str());
                line.append("\n");
                self.out.append(line.as_str());
            },
            Some(found) => {
                let mut line = String::from_str("::");
                line.append(level);
                line.append(" file=");
                line.append(property(found.path.as_str()).as_str());
                line.append(",line=");
                line.append(crate::text::decimal_string(found.line as u64).as_str());
                line.append(",title=");
                line.append(property(outcome.name.as_str()).as_str());
                line.append("::");
                line.append(text.as_str());
                line.append("\n");
                self.out.append(line.as_str());
            },
        }
    }

    fn finish(&mut self, report: &Report)
        ensures
            final(self).written() == old(self).written(),
            final(self).documents() == old(self).documents(),
    {
    }
}

} // verus!
