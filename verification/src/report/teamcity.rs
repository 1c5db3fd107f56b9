//! Failures as TeamCity service messages, which is how a JetBrains IDE draws a test tree.
//!
//! Streamed per case rather than assembled at the end: an IDE draws each case as it finishes.

use vstd::prelude::*;
use crate::outcome::Outcome;
use crate::report::{Report, Sink, failure_lines, failure_text};
use crate::report::junit::{headline, summarise};
use crate::text::{decimal, joined};

verus! {

/// Whether `c` is a control character: the general category `Cc` of Unicode.
pub open spec fn control(c: char) -> bool {
    (c as u32) < 0x20 || (0x7F <= (c as u32) && (c as u32) <= 0x9F)
}

/// What one character becomes inside a service message attribute.
pub open spec fn tc_char(c: char) -> Seq<char> {
    if c == '|' {
        "||"@
    } else if c == '\'' {
        "|'"@
    } else if c == '\n' {
        "|n"@
    } else if c == '\r' {
        "|r"@
    } else if c == '[' {
        "|["@
    } else if c == ']' {
        "|]"@
    } else if control(c) {
        seq![' ']
    } else {
        seq![c]
    }
}

/// Text safe inside a service message attribute, each character escaped once.
pub open spec fn tc_escaped(text: Seq<char>) -> Seq<char>
    decreases text.len(),
{
    if text.len() == 0 {
        Seq::empty()
    } else {
        tc_escaped(text.drop_last()) + tc_char(text.last())
    }
}

/// A subject's own output cannot forge a message: its escaped form holds no line break, and every
/// bracket or quote in it is escaped by the bar before it.
pub proof fn law_escaped_cannot_forge(text: Seq<char>)
    ensures
        forall|i: int|
            0 <= i < tc_escaped(text).len() ==> #[trigger] tc_escaped(text)[i] != '\n' && tc_escaped(
                text,
            )[i] != '\r',
        forall|i: int|
            0 <= i < tc_escaped(text).len() && (#[trigger] tc_escaped(text)[i] == '[' || tc_escaped(text)[i]
                == ']' || tc_escaped(text)[i] == '\'') ==> i > 0 && tc_escaped(text)[i - 1] == '|',
    decreases text.len(),
{
    reveal_strlit("||");
    reveal_strlit("|'");
    reveal_strlit("|n");
    reveal_strlit("|r");
    reveal_strlit("|[");
    reveal_strlit("|]");
    if text.len() > 0 {
        law_escaped_cannot_forge(text.drop_last());
        let head = tc_escaped(text.drop_last());
        let tail = tc_char(text.last());
        let whole = tc_escaped(text);
        assert(whole == head + tail);
        assert forall|i: int| 0 <= i < whole.len() implies #[trigger] whole[i] != '\n' && whole[i] != '\r' by {
            if i < head.len() {
                assert(whole[i] == head[i]);
            } else {
                assert(whole[i] == tail[i - head.len()]);
            }
        }
        assert forall|i: int| 0 <= i < whole.len() && (#[trigger] whole[i] == '[' || whole[i] == ']' || whole[i]
            == '\'') implies i > 0 && whole[i - 1] == '|' by {
            if i < head.len() {
                assert(whole[i] == head[i]);
                assert(whole[i - 1] == head[i - 1]);
            } else {
                assert(whole[i] == tail[i - head.len()]);
                if i - head.len() == 1 {
                    assert(whole[i - 1] == tail[0]);
                }
            }
        }
    }
}

fn is_control(c: char) -> (b: bool)
    ensures
        b == control(c),
{
    let code = c as u32;
    code < 0x20 || (0x7F <= code && code <= 0x9F)
}

/// Text safe inside a service message attribute.
///
/// The escape character is a vertical bar, and each character is escaped exactly once, so the bars
/// an escape introduces are never escaped again. A control character becomes a space.
pub fn escaped(text: &str) -> (out: String)
    ensures
        out@ == tc_escaped(text@),
{
    let cs = crate::text::chars_of(text);
    let mut out = String::new();
    let mut i: usize = 0;
    while i < cs.len()
        invariant
            i <= cs.len(),
            cs@ == text@,
            out@ == tc_escaped(cs@.take(i as int)),
        decreases cs.len() - i,
    {
        let c = cs[i];
        if c == '|' {
            out.append("||");
        } else if c == '\'' {
            out.append("|'");
        } else if c == '\n' {
            out.append("|n");
        } else if c == '\r' {
            out.append("|r");
        } else if c == '[' {
            out.append("|[");
        } else if c == ']' {
            out.append("|]");
        } else if is_control(c) {
            crate::text::push_char(&mut out, ' ');
        } else {
            crate::text::push_char(&mut out, c);
        }
        assert(cs@.take(i + 1).drop_last() =~= cs@.take(i as int));
        i = i + 1;
    }
    assert(cs@.take(cs.len() as int) =~= cs@);
    out
}

/// The failure message of `o`: a comparison whenever there is a first diff to compare.
pub open spec fn failure_message(name: Seq<char>, o: Outcome, detail: Seq<char>) -> Seq<char> {
    if o.diffs@.len() > 0 {
        "##teamcity[testFailed type='comparisonFailure' name='"@ + name + "' message='"@ + tc_escaped(
            o.diffs@[0].path@,
        ) + "' details='"@ + detail + "' expected='"@ + tc_escaped(o.diffs@[0].expected@)
            + "' actual='"@ + tc_escaped(o.diffs@[0].got@) + "']"@
    } else {
        "##teamcity[testFailed name='"@ + name + "' message='"@ + tc_escaped(headline(o.diffs@))
            + "' details='"@ + detail + "']"@
    }
}

/// The messages one finished case writes, after the suite is open.
pub open spec fn case_messages(o: Outcome) -> Seq<char> {
    let name = tc_escaped(o.name@);
    let detail = tc_escaped(joined(failure_text(o), "\n"@));
    "##teamcity[testStarted name='"@ + name + "']\n"@ + (if o.passed {
        Seq::empty()
    } else if o.allow_fail {
        "##teamcity[testIgnored name='"@ + name + "' message='tolerated: "@ + tc_escaped(
            headline(o.diffs@),
        ) + "']\n"@
    } else {
        failure_message(name, o, detail) + "\n"@
    }) + "##teamcity[testFinished name='"@ + name + "' duration='"@ + decimal(
        o.duration_ms as nat,
    ) + "']\n"@
}

/// The message that opens the suite.
pub open spec fn suite_started() -> Seq<char> {
    "##teamcity[testSuiteStarted name='gaveldrop']\n"@
}

/// The message that closes the suite.
pub open spec fn suite_finished() -> Seq<char> {
    "##teamcity[testSuiteFinished name='gaveldrop']\n"@
}

/// Writes service messages as each case finishes.
pub struct TeamCity {
    out: String,
    opened: bool,
}

fn failure(name: &str, outcome: &Outcome, detail: &str) -> (out: String)
    ensures
        out@ == failure_message(name@, *outcome, detail@),
{
    if outcome.diffs.len() > 0 {
        let first = &outcome.diffs[0];
        let mut out = String::from_str("##teamcity[testFailed type='comparisonFailure' name='");
        out.append(name);
        out.append("' message='");
        out.append(escaped(first.path.as_str()).as_str());
        out.append("' details='");
        out.append(detail);
        out.append("' expected='");
        out.append(escaped(first.expected.as_str()).as_str());
        out.append("' actual='");
        out.append(escaped(first.got.as_str()).as_str());
        out.append("']");
        out
    } else {
        let mut out = String::from_str("##teamcity[testFailed name='");
        out.append(name);
        out.append("' message='");
        out.append(escaped(summarise(&outcome.diffs).as_str()).as_str());
        out.append("' details='");
        out.append(detail);
        out.append("']");
        out
    }
}

fn case_block(outcome: &Outcome) -> (out: String)
    ensures
        out@ == case_messages(*outcome),
{
    let name = escaped(outcome.name.as_str());
    let mut out = String::from_str("##teamcity[testStarted name='");
    out.append(name.as_str());
    out.append("']\n");
    let ghost start = out@;
    if !outcome.passed {
        let lines = failure_lines(outcome);
        let detail = escaped(crate::text::join(&lines, "\n").as_str());
        if outcome.allow_fail {
            out.append("##teamcity[testIgnored name='");
            out.append(name.as_str());
            out.append("' message='tolerated: ");
            out.append(escaped(summarise(&outcome.diffs).as_str()).as_str());
            out.append("']\n");
        } else {
            out.append(failure(name.as_str(), outcome, detail.as_str()).as_str());
            out.append("\n");
        }
    }
    let ghost middle = out@;
    out.append("##teamcity[testFinished name='");
    out.append(name.as_str());
    out.append("' duration='");
    out.append(crate::text::decimal_string(outcome.duration_ms).as_str());
    out.append("']\n");
    assert(out@ =~= case_messages(*outcome));
    out
}

impl TeamCity {
    /// What this renderer has written so far.
    pub closed spec fn written(&self) -> Seq<char> {
        self.out@
    }

    /// Whether the suite has been opened.
    pub closed spec fn is_open(&self) -> bool {
        self.opened
    }

    /// A renderer with nothing written and the suite not yet opened.
    pub fn new() -> (t: TeamCity)
        ensures
            t.written().len() == 0,
            !t.is_open(),
    {
        TeamCity { out: String::new(), opened: false }
    }

    /// Everything written so far.
    pub fn text(&self) -> (s: &str)
        ensures
            s@ == self.written(),
    {
        self.out.as_str()
    }

    /// Hands over what was written since the last call, leaving the buffer empty.
    pub fn drain(&mut self) -> (s: String)
        ensures
            s@ == old(self).written(),
            final(self).written().len() == 0,
            final(self).is_open() == old(self).is_open(),
    {
        let mut s = String::new();
        std::mem::swap(&mut s, &mut self.out);
        s
    }

    /// Opens the suite on the first case, so nothing is emitted for a run that never starts one.
    fn open(&mut self)
        ensures
            final(self).is_open(),
            final(self).written() == old(self).written() + if old(self).is_open() {
                Seq::empty()
            } else {
                suite_started()
            },
    {
        if !self.opened {
            self.opened = true;
            self.out.append("##teamcity[testSuiteStarted name='gaveldrop']\n");
        } else {
            assert(self.out@ =~= self.out@ + Seq::<char>::empty());
        }
    }
}

impl Sink for TeamCity {
    fn case_finished(&mut self, outcome: &Outcome)
        ensures
            final(self).is_open(),
            final(self).written() == old(self).written() + (if old(self).is_open() {
                Seq::empty()
            } else {
                suite_started()
            }) + case_messages(*outcome),
    {
        self.open();
        let block = case_block(outcome);
        self.out.append(block.as_str());
    }

    fn finish(&mut self, report: &Report)
        ensures
            final(self).is_open(),
            final(self).written() == old(self).written() + (if old(self).is_open() {
                Seq::empty()
            } else {
                suite_started()
            }) + suite_finished(),
    {
        self.open();
        self.out.append("##teamcity[testSuiteFinished name='gaveldrop']\n");
    }
}

} // verus!
