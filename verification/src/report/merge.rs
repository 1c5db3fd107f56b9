//! Reading reports back, and consolidating several into one.
//!
//! A JSON Lines report is framed here: which lines hold an outcome, and under which number. Turning
//! one such line into an [`Outcome`] is the JSON reader's work, done by the caller; what it gives
//! back comes to [`read_parsed`], which decides what the whole report is.

use vstd::prelude::*;
use crate::outcome::Outcome;
use crate::report::Report;
use crate::text::{begins, decimal, lemma_split_nonempty, split_on, trimmed};

verus! {

/// What can go wrong while reading a report back.
#[derive(Debug)]
pub enum MergeError {
    /// A report file could not be read.
    Io {
        /// The path that could not be read.
        path: std::path::PathBuf,
        /// The underlying failure.
        source: std::io::Error,
    },
    /// A line was not a readable outcome.
    Line {
        /// Which line, 1-indexed.
        line: usize,
        /// The underlying failure.
        source: serde_json::Error,
    },
}

impl MergeError {
    /// The error as a sentence: the path that could not be read, or the number of the line that
    /// held no outcome.
    pub fn message(&self) -> (text: String)
        ensures
            self matches MergeError::Line { line, .. } ==> begins(
                text@,
                "line "@ + decimal(*line as nat) + " is not a readable outcome: "@,
            ),
            self is Io ==> begins(text@, "reading the report "@),
    {
        match self {
            MergeError::Io { path, source } => {
                let mut out = String::from_str("reading the report ");
                let ghost head = out@;
                out.append(crate::ext::path_text(crate::ext::as_path(path)).as_str());
                out.append(": ");
                out.append(crate::ext::io_error_text(source).as_str());
                assert(out@.subrange(0, head.len() as int) =~= head);
                out
            },
            MergeError::Line { line, source } => {
                let mut out = String::from_str("line ");
                out.append(crate::text::decimal_string(*line as u64).as_str());
                out.append(" is not a readable outcome: ");
                let ghost head = out@;
                out.append(crate::ext::json_error_text(source).as_str());
                assert(out@.subrange(0, head.len() as int) =~= head);
                out
            },
        }
    }
}

/// Whether a line holds nothing but white space: such a line is passed over, because
/// concatenating files whose last line lacks a newline is the normal accident.
pub open spec fn blank(line: Seq<char>) -> bool {
    trimmed(line).len() == 0
}

/// Every piece of `text` between newlines, each with its number, counting from one.
pub open spec fn numbered_lines(text: Seq<char>) -> Seq<(int, Seq<char>)> {
    let pieces = split_on(text, '\n');
    Seq::new(pieces.len(), |i: int| (i + 1, pieces[i]))
}

/// The lines of a report that must each hold an outcome, in order, with their numbers: every
/// line but the blank ones.
pub open spec fn outcome_entries(text: Seq<char>) -> Seq<(int, Seq<char>)> {
    numbered_lines(text).filter(|e: (int, Seq<char>)| !blank(e.1))
}

/// The lines of a report that must each hold an outcome, without their numbers.
pub open spec fn report_lines(text: Seq<char>) -> Seq<Seq<char>> {
    split_on(text, '\n').filter(|l: Seq<char>| !blank(l))
}

/// The texts of numbered lines.
pub open spec fn entry_texts(entries: Seq<(usize, String)>) -> Seq<Seq<char>> {
    entries.map_values(|e: (usize, String)| e.1@)
}

/// Numbered lines as plain values.
pub open spec fn entry_views(entries: Seq<(usize, String)>) -> Seq<(int, Seq<char>)> {
    entries.map_values(|e: (usize, String)| (e.0 as int, e.1@))
}

/// The lines of a JSON Lines report that hold an outcome, each with its number counted from one.
///
/// A blank line is passed over; every other line is handed on, so that one that is not an
/// outcome is refused under its own number rather than skipped. A carriage return before a
/// newline stays with its line, where JSON reads it as white space.
pub fn outcome_lines(text: &str) -> (out: Vec<(usize, String)>)
    ensures
        entry_views(out@) == outcome_entries(text@),
        entry_texts(out@) == report_lines(text@),
{
    let cs = crate::text::chars_of(text);
    let parts = crate::text::split_chars(&cs, '\n');
    let ghost pieces = parts@.map_values(|p: Vec<char>| p@);
    let ghost all = numbered_lines(text@);
    let mut out: Vec<(usize, String)> = Vec::new();
    let mut i: usize = 0;
    while i < parts.len()
        invariant
            i <= parts@.len(),
            pieces == parts@.map_values(|p: Vec<char>| p@),
            pieces == split_on(text@, '\n'),
            all == numbered_lines(text@),
            all.len() == pieces.len(),
            entry_views(out@) == all.take(i as int).filter(|e: (int, Seq<char>)| !blank(e.1)),
            entry_texts(out@) == pieces.take(i as int).filter(|l: Seq<char>| !blank(l)),
        decreases parts@.len() - i,
    {
        let line = crate::text::string_of(&parts[i]);
        let t = crate::text::trim(line.as_str());
        let ghost before = out@;
        assert(pieces[i as int] == line@);
        assert(all[i as int] == (i + 1, line@));
        assert(all.take(i + 1).drop_last() =~= all.take(i as int));
        assert(pieces.take(i + 1).drop_last() =~= pieces.take(i as int));
        reveal(Seq::filter);
        if !t.as_str().is_empty() {
            out.push((i + 1, line));
            assert(entry_views(out@) =~= entry_views(before).push(all[i as int]));
            assert(entry_texts(out@) =~= entry_texts(before).push(pieces[i as int]));
        }
        i = i + 1;
    }
    assert(all.take(parts@.len() as int) =~= all);
    assert(pieces.take(parts@.len() as int) =~= pieces);
    out
}

/// Splitting text that ends a line before more text: the pieces of the first part, less the
/// empty one after its last newline, then the pieces of the rest.
proof fn lemma_split_after_newline(a: Seq<char>, b: Seq<char>)
    requires
        a.len() == 0 || a.last() == '\n',
    ensures
        split_on(a + b, '\n') == split_on(a, '\n').drop_last() + split_on(b, '\n'),
    decreases b.len(),
{
    if b.len() == 0 {
        assert(a + b =~= a);
        if a.len() > 0 {
            assert(split_on(a, '\n') == split_on(a.drop_last(), '\n').push(Seq::empty()));
        }
        assert(split_on(a, '\n').drop_last() + split_on(b, '\n') =~= split_on(a, '\n'));
    } else {
        lemma_split_after_newline(a, b.drop_last());
        lemma_split_nonempty(b.drop_last(), '\n');
        assert((a + b).drop_last() =~= a + b.drop_last());
        assert((a + b).last() == b.last());
        let front = split_on(a, '\n').drop_last();
        let rest = split_on(b.drop_last(), '\n');
        if b.last() == '\n' {
            assert(split_on(a + b, '\n') =~= front + split_on(b, '\n'));
        } else {
            let before = front + rest;
            assert(before.last() == rest.last());
            assert(before.update(before.len() - 1, before.last().push(b.last())) =~= front
                + rest.update(rest.len() - 1, rest.last().push(b.last())));
        }
    }
}

/// Merging is concatenation, read back: when the first report ends its last line, as every
/// report written one outcome per line does, the lines of the two files put end to end are the
/// lines of the first followed by those of the second.
pub proof fn law_concatenated_reports_read_back_in_order(a: Seq<char>, b: Seq<char>)
    requires
        a.len() == 0 || a.last() == '\n',
    ensures
        report_lines(a + b) == report_lines(a) + report_lines(b),
{
    let keep = |l: Seq<char>| !blank(l);
    lemma_split_after_newline(a, b);
    lemma_split_nonempty(a, '\n');
    let pa = split_on(a, '\n');
    Seq::filter_distributes_over_add(pa.drop_last(), split_on(b, '\n'), keep);
    assert(pa.last().len() == 0) by {
        if a.len() > 0 {
            assert(pa == split_on(a.drop_last(), '\n').push(Seq::empty()));
        }
    }
    assert(blank(pa.last()));
    assert(pa.drop_last().push(pa.last()) =~= pa);
    pa.drop_last().lemma_filter_push(pa.last(), keep);
}

/// Whether what the reader made of a line is an outcome.
pub open spec fn read_back(e: (usize, Result<Outcome, serde_json::Error>)) -> bool {
    e.1 is Ok
}

/// The outcomes read back from lines that all held one.
pub open spec fn outcomes_read(parsed: Seq<(usize, Result<Outcome, serde_json::Error>)>) -> Seq<
    Outcome,
> {
    parsed.map_values(|e: (usize, Result<Outcome, serde_json::Error>)| e.1->Ok_0)
}

/// A report from what the JSON reader made of each line, given with the line's number.
///
/// Every line holds an outcome: the report is those outcomes, in order, and its summary is
/// recomputed from them. Otherwise the first line that did not is the error, under its number:
/// a report is consolidated for gating, so a line silently dropped would move the score without
/// anyone noticing.
pub fn read_parsed(parsed: Vec<(usize, Result<Outcome, serde_json::Error>)>) -> (r: Result<
    Report,
    MergeError,
>)
    ensures
        r is Ok <==> (forall|i: int| 0 <= i < parsed@.len() ==> read_back(#[trigger] parsed@[i])),
        r matches Ok(report) ==> report.outcomes@ == outcomes_read(parsed@),
        r is Err ==> r->Err_0 is Line,
        r matches Err(MergeError::Line { line, .. }) ==> (exists|i: int|
            0 <= i < parsed@.len() && !read_back(#[trigger] parsed@[i]) && parsed@[i].0 == line
                && (forall|j: int| 0 <= j < i ==> read_back(#[trigger] parsed@[j]))),
{
    let ghost given = parsed@;
    let mut outcomes: Vec<Outcome> = Vec::new();
    let mut rest = parsed;
    let ghost mut taken: int = 0;
    while rest.len() > 0
        invariant
            given == parsed@,
            0 <= taken <= given.len(),
            rest@ == given.skip(taken),
            forall|j: int| 0 <= j < taken ==> read_back(#[trigger] given[j]),
            outcomes@ == outcomes_read(given.take(taken)),
        decreases rest@.len(),
    {
        let (line, result) = rest.remove(0);
        assert(given[taken] == (line, result));
        match result {
            Ok(outcome) => {
                outcomes.push(outcome);
                assert(outcomes_read(given.take(taken + 1)) =~= outcomes_read(given.take(taken)).push(
                    given[taken].1->Ok_0,
                ));
                proof {
                    taken = taken + 1;
                }
                assert(rest@ =~= given.skip(taken));
            },
            Err(source) => {
                assert(!read_back(given[taken]));
                return Err(MergeError::Line { line, source });
            },
        }
    }
    assert(given.take(taken) =~= given);
    Ok(Report::from_outcomes(outcomes))
}

} // verus!
