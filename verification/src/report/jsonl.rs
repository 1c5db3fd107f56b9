//! The machine-readable report: one JSON object per line, outcomes only.
//!
//! **No summary line is ever written.** The summary is always computed from the outcomes, which
//! is what makes concatenating two of these files exactly the right way to merge them.

use vstd::prelude::*;
use crate::outcome::{Diff, Outcome};
use crate::report::{Report, Sink, flattened};
use crate::text::decimal;

verus! {

/// `text` as a JSON string, quotes included, as `serde_json` writes it.
pub uninterp spec fn json_quoted(text: Seq<char>) -> Seq<char>;

/// `text` as a JSON string literal.
///
/// Calls `serde_json::to_string` on the text, which writes it between double quotes with the
/// characters JSON requires escaped. Serialising a string cannot fail, so the error arm is never
/// taken; the escaping itself is named rather than spelled out.
#[verifier::external_body]
pub(crate) fn quoted(text: &str) -> (out: String)
    ensures
        out@ == json_quoted(text@),
{
    match serde_json::to_string(text) {
        Ok(out) => out,
        Err(_) => String::new(),
    }
}

/// `true` or `false`, as JSON writes them.
pub open spec fn json_bool(b: bool) -> Seq<char> {
    if b { "true"@ } else { "false"@ }
}

/// A list of JSON values, between brackets and separated by commas.
pub open spec fn json_list(items: Seq<Seq<char>>) -> Seq<char> {
    "["@ + crate::text::joined(items, ","@) + "]"@
}

/// One diff as a JSON object.
pub open spec fn diff_json(d: Diff) -> Seq<char> {
    "{\"path\":"@ + json_quoted(d.path@) + ",\"expected\":"@ + json_quoted(d.expected@)
        + ",\"got\":"@ + json_quoted(d.got@) + "}"@
}

/// One outcome as a JSON object, its fields in declaration order.
pub open spec fn outcome_json(o: Outcome) -> Seq<char> {
    "{\"name\":"@ + json_quoted(o.name@) + ",\"weight\":"@ + decimal(o.weight as nat)
        + ",\"allow_fail\":"@ + json_bool(o.allow_fail) + ",\"passed\":"@ + json_bool(o.passed)
        + ",\"diffs\":"@ + json_list(o.diffs@.map_values(|d: Diff| diff_json(d)))
        + ",\"unexpected_calls\":"@ + json_list(
        o.unexpected_calls@.map_values(|c: String| json_quoted(c@)),
    ) + ",\"unmentioned_files\":"@ + json_list(
        o.unmentioned_files@.map_values(|f: String| json_quoted(f@)),
    ) + ",\"duration_ms\":"@ + decimal(o.duration_ms as nat) + "}"@
}

pub(crate) fn bool_text(b: bool) -> (out: &'static str)
    ensures
        out@ == json_bool(b),
{
    if b { "true" } else { "false" }
}

fn diff_object(d: &Diff) -> (out: String)
    ensures
        out@ == diff_json(*d),
{
    let mut out = String::from_str("{\"path\":");
    out.append(quoted(d.path.as_str()).as_str());
    out.append(",\"expected\":");
    out.append(quoted(d.expected.as_str()).as_str());
    out.append(",\"got\":");
    out.append(quoted(d.got.as_str()).as_str());
    out.append("}");
    out
}

fn diff_list(diffs: &Vec<Diff>) -> (out: String)
    ensures
        out@ == json_list(diffs@.map_values(|d: Diff| diff_json(d))),
{
    let mut items: Vec<String> = Vec::new();
    let mut i: usize = 0;
    while i < diffs.len()
        invariant
            i <= diffs.len(),
            crate::text::views(items@) == diffs@.take(i as int).map_values(|d: Diff| diff_json(d)),
        decreases diffs.len() - i,
    {
        let item = diff_object(&diffs[i]);
        let ghost before = items@;
        items.push(item);
        proof {
            assert(crate::text::views(items@) =~= crate::text::views(before).push(item@));
            assert(diffs@.take(i + 1).map_values(|d: Diff| diff_json(d)) =~= diffs@.take(
                i as int,
            ).map_values(|d: Diff| diff_json(d)).push(diff_json(diffs@[i as int])));
        }
        i = i + 1;
    }
    assert(diffs@.take(diffs.len() as int) =~= diffs@);
    let mut out = String::from_str("[");
    out.append(crate::text::join(&items, ",").as_str());
    out.append("]");
    out
}

pub(crate) fn string_list(texts: &Vec<String>) -> (out: String)
    ensures
        out@ == json_list(texts@.map_values(|t: String| json_quoted(t@))),
{
    let mut items: Vec<String> = Vec::new();
    let mut i: usize = 0;
    while i < texts.len()
        invariant
            i <= texts.len(),
            crate::text::views(items@) == texts@.take(i as int).map_values(|t: String| json_quoted(t@)),
        decreases texts.len() - i,
    {
        let item = quoted(texts[i].as_str());
        let ghost before = items@;
        items.push(item);
        proof {
            assert(crate::text::views(items@) =~= crate::text::views(before).push(item@));
            assert(texts@.take(i + 1).map_values(|t: String| json_quoted(t@)) =~= texts@.take(
                i as int,
            ).map_values(|t: String| json_quoted(t@)).push(json_quoted(texts@[i as int]@)));
        }
        i = i + 1;
    }
    assert(texts@.take(texts.len() as int) =~= texts@);
    let mut out = String::from_str("[");
    out.append(crate::text::join(&items, ",").as_str());
    out.append("]");
    out
}

/// One outcome as a line of JSON, without its newline.
pub fn outcome_line(o: &Outcome) -> (out: String)
    ensures
        out@ == outcome_json(*o),
{
    let mut out = String::from_str("{\"name\":");
    out.append(quoted(o.name.as_str()).as_str());
    out.append(",\"weight\":");
    out.append(crate::text::decimal_string(o.weight as u64).as_str());
    out.append(",\"allow_fail\":");
    out.append(bool_text(o.allow_fail));
    out.append(",\"passed\":");
    out.append(bool_text(o.passed));
    out.append(",\"diffs\":");
    out.append(diff_list(&o.diffs).as_str());
    out.append(",\"unexpected_calls\":");
    out.append(string_list(&o.unexpected_calls).as_str());
    out.append(",\"unmentioned_files\":");
    out.append(string_list(&o.unmentioned_files).as_str());
    out.append(",\"duration_ms\":");
    out.append(crate::text::decimal_string(o.duration_ms).as_str());
    out.append("}");
    out
}

/// Writes one JSON object per finished case.
pub struct Jsonl {
    out: String,
}

impl Jsonl {
    /// What this renderer has written so far.
    pub closed spec fn written(&self) -> Seq<char> {
        self.out@
    }

    /// A renderer with nothing written yet.
    pub fn new() -> (j: Jsonl)
        ensures
            j.written().len() == 0,
    {
        Jsonl { out: String::new() }
    }

    /// Everything written so far.
    pub fn text(&self) -> (s: &str)
        ensures
            s@ == self.written(),
    {
        self.out.as_str()
    }

    /// Hands over what was written since the last call, leaving the buffer empty.
    pub fn drain(&mut self) -> (s: String)
        ensures
            s@ == old(self).written(),
            final(self).written().len() == 0,
    {
        let mut s = String::new();
        std::mem::swap(&mut s, &mut self.out);
        s
    }
}

impl Sink for Jsonl {
    fn case_finished(&mut self, outcome: &Outcome)
        ensures
            final(self).written() == old(self).written() + outcome_json(*outcome) + "\n"@,
    {
        let line = outcome_line(outcome);
        self.out.append(line.as_str());
        self.out.append("\n");
    }

    fn finish(&mut self, report: &Report)
        ensures
            final(self).written() == old(self).written(),
    {
    }
}

/// What the JSON Lines renderer writes for `outcomes` finished in order: one line each.
pub open spec fn jsonl_of(outcomes: Seq<Outcome>) -> Seq<char>
    decreases outcomes.len(),
{
    if outcomes.len() == 0 {
        Seq::empty()
    } else {
        jsonl_of(outcomes.drop_last()) + outcome_json(outcomes.last()) + "\n"@
    }
}

/// What each of `reports` would be written as, one after the other.
pub open spec fn concatenated(reports: Seq<Report>) -> Seq<char>
    decreases reports.len(),
{
    if reports.len() == 0 {
        Seq::empty()
    } else {
        jsonl_of(reports[0].outcomes@) + concatenated(reports.drop_first())
    }
}

proof fn lemma_jsonl_append(a: Seq<Outcome>, b: Seq<Outcome>)
    ensures
        jsonl_of(a + b) == jsonl_of(a) + jsonl_of(b),
    decreases b.len(),
{
    if b.len() == 0 {
        assert(a + b =~= a);
        assert(jsonl_of(a) + jsonl_of(b) =~= jsonl_of(a));
    } else {
        assert((a + b).drop_last() =~= a + b.drop_last());
        assert((a + b).last() == b.last());
        lemma_jsonl_append(a, b.drop_last());
        assert(jsonl_of(a) + jsonl_of(b) =~= jsonl_of(a) + jsonl_of(b.drop_last()) + outcome_json(b.last()) + "\n"@);
    }
}

/// Merging is `cat`: the reports several shards wrote, put end to end, are exactly what one run
/// would write for the merged report — nothing but outcomes is ever written, so nothing needs
/// recomputing.
pub proof fn law_merging_is_concatenation(reports: Seq<Report>)
    ensures
        concatenated(reports) == jsonl_of(flattened(reports)),
    decreases reports.len(),
{
    if reports.len() > 0 {
        law_merging_is_concatenation(reports.drop_first());
        lemma_jsonl_append(reports[0].outcomes@, flattened(reports.drop_first()));
    } else {
        assert(jsonl_of(flattened(reports)) =~= Seq::<char>::empty());
    }
}

} // verus!
