//! Aggregating outcomes, and rendering them.
//!
//! **A report is a list of outcomes plus a summary computed from it — never a frozen summary.**
//! That is what makes two reports mergeable by plain concatenation.

pub mod annotate;
pub mod badge;
pub mod html;
pub mod jsonl;
pub mod junit;
pub mod lines;
pub mod merge;
pub mod rank;
pub mod sources;
pub mod teamcity;
pub mod terminal;
pub mod verbose;

use vstd::prelude::*;
use crate::config::GateConfig;
use crate::observations::Observations;
use crate::outcome::{Diff, Outcome};
use crate::text::{decimal, digit, joined, views};

verus! {

/// Every outcome of a run.
#[derive(Debug, Clone)]
pub struct Report {
    /// The outcomes, in the order the cases finished.
    pub outcomes: Vec<Outcome>,
}

/// The counts and the weighted score, derived from the outcomes.
#[derive(Debug, Clone, Copy, PartialEq, Eq, Structural)]
pub struct Summary {
    /// How many cases ran.
    pub total: usize,
    /// How many passed.
    pub passed: usize,
    /// How many failed without being tolerated.
    pub failed: usize,
    /// How many failed but were declared `allow_fail`.
    pub tolerated: usize,
    /// Sum of the weights of passing cases.
    pub score: u32,
    /// Sum of every weight.
    pub max_score: u32,
    /// How long every case took together, in milliseconds.
    pub duration_ms: u64,
}

/// How many of `s` passed.
pub open spec fn passing(s: Seq<Outcome>) -> nat
    decreases s.len(),
{
    if s.len() == 0 {
        0
    } else {
        passing(s.drop_last()) + if s.last().passed { 1nat } else { 0nat }
    }
}

/// How many of `s` failed while declared `allow_fail`.
pub open spec fn tolerating(s: Seq<Outcome>) -> nat
    decreases s.len(),
{
    if s.len() == 0 {
        0
    } else {
        tolerating(s.drop_last()) + if !s.last().passed && s.last().allow_fail { 1nat } else { 0nat }
    }
}

/// How many of `s` failed with nothing excusing them.
pub open spec fn failing(s: Seq<Outcome>) -> nat
    decreases s.len(),
{
    if s.len() == 0 {
        0
    } else {
        failing(s.drop_last()) + if !s.last().passed && !s.last().allow_fail { 1nat } else { 0nat }
    }
}

/// The weights of `s`, added up.
pub open spec fn weight_total(s: Seq<Outcome>) -> nat
    decreases s.len(),
{
    if s.len() == 0 {
        0
    } else {
        weight_total(s.drop_last()) + s.last().weight as nat
    }
}

/// The weights of the cases of `s` that passed, added up.
pub open spec fn weight_held(s: Seq<Outcome>) -> nat
    decreases s.len(),
{
    if s.len() == 0 {
        0
    } else {
        weight_held(s.drop_last()) + if s.last().passed { s.last().weight as nat } else { 0nat }
    }
}

/// The durations of `s`, added up.
pub open spec fn time_total(s: Seq<Outcome>) -> nat
    decreases s.len(),
{
    if s.len() == 0 {
        0
    } else {
        time_total(s.drop_last()) + s.last().duration_ms as nat
    }
}

/// `n`, or `most` when `n` is larger: a sum that saturates rather than wraps.
pub open spec fn capped(n: nat, most: nat) -> nat {
    if n > most { most } else { n }
}

/// The summary of a run whose outcomes are `s`.
pub open spec fn summary_of(s: Seq<Outcome>) -> Summary {
    Summary {
        total: s.len() as usize,
        passed: passing(s) as usize,
        failed: failing(s) as usize,
        tolerated: tolerating(s) as usize,
        score: capped(weight_held(s), u32::MAX as nat) as u32,
        max_score: capped(weight_total(s), u32::MAX as nat) as u32,
        duration_ms: capped(time_total(s), u64::MAX as nat) as u64,
    }
}

/// Every case of `s` either passed, failed, or failed while tolerated; the counts never exceed
/// the number of cases.
pub proof fn lemma_counts_partition(s: Seq<Outcome>)
    ensures
        passing(s) + failing(s) + tolerating(s) == s.len(),
        weight_held(s) <= weight_total(s),
    decreases s.len(),
{
    if s.len() > 0 {
        lemma_counts_partition(s.drop_last());
    }
}

proof fn lemma_counts_concat(a: Seq<Outcome>, b: Seq<Outcome>)
    ensures
        passing(a + b) == passing(a) + passing(b),
        failing(a + b) == failing(a) + failing(b),
        tolerating(a + b) == tolerating(a) + tolerating(b),
        weight_total(a + b) == weight_total(a) + weight_total(b),
        weight_held(a + b) == weight_held(a) + weight_held(b),
        time_total(a + b) == time_total(a) + time_total(b),
    decreases b.len(),
{
    if b.len() == 0 {
        assert(a + b =~= a);
    } else {
        lemma_counts_concat(a, b.drop_last());
        assert((a + b).drop_last() =~= a + b.drop_last());
        assert((a + b).last() == b.last());
    }
}

proof fn lemma_flattened_two(a: Report, b: Report)
    ensures
        flattened(seq![a, b]) == a.outcomes@ + b.outcomes@,
{
    let rs = seq![a, b];
    let one = seq![b];
    assert(rs.drop_first() =~= one);
    assert(one.drop_first() =~= Seq::<Report>::empty());
    assert(flattened(one.drop_first()) =~= Seq::<Outcome>::empty());
    assert(flattened(one) == one[0].outcomes@ + flattened(one.drop_first()));
    assert(flattened(one) =~= b.outcomes@);
    assert(flattened(rs) == rs[0].outcomes@ + flattened(rs.drop_first()));
}

/// Two reports merge by concatenation, and the summary is recomputed from what was merged: the
/// counts add up, and the score and the total weight are the sums of both sides, saturating at the
/// largest `u32`.
pub proof fn law_merged_summary_adds_up(a: Report, b: Report)
    requires
        a.outcomes@.len() + b.outcomes@.len() <= usize::MAX,
    ensures
        ({
            let m = summary_of(flattened(seq![a, b]));
            &&& m.total == a.outcomes@.len() + b.outcomes@.len()
            &&& m.passed == passing(a.outcomes@) + passing(b.outcomes@)
            &&& m.failed == failing(a.outcomes@) + failing(b.outcomes@)
            &&& m.tolerated == tolerating(a.outcomes@) + tolerating(b.outcomes@)
            &&& m.score == capped(weight_held(a.outcomes@) + weight_held(b.outcomes@), u32::MAX as nat)
            &&& m.max_score == capped(weight_total(a.outcomes@) + weight_total(b.outcomes@), u32::MAX as nat)
            &&& m.duration_ms == capped(time_total(a.outcomes@) + time_total(b.outcomes@), u64::MAX as nat)
        }),
{
    lemma_flattened_two(a, b);
    lemma_counts_concat(a.outcomes@, b.outcomes@);
    lemma_counts_partition(a.outcomes@ + b.outcomes@);
}

/// A tolerated failure is counted apart rather than hidden or counted as a failure: every case
/// is exactly one of passed, failed or tolerated, and a run whose only failures are tolerated is
/// a success.
pub proof fn law_tolerated_is_not_failed(s: Seq<Outcome>)
    ensures
        passing(s) + failing(s) + tolerating(s) == s.len(),
        (forall|i: int| 0 <= i < s.len() ==> (#[trigger] s[i]).passed || s[i].allow_fail) ==> failing(s)
            == 0,
    decreases s.len(),
{
    lemma_counts_partition(s);
    if s.len() > 0 {
        law_tolerated_is_not_failed(s.drop_last());
        assert forall|i: int| 0 <= i < s.drop_last().len() implies #[trigger] s.drop_last()[i] == s[i] by {}
        if forall|i: int| 0 <= i < s.len() ==> (#[trigger] s[i]).passed || s[i].allow_fail {
            assert(s.last() == s[s.len() - 1]);
            assert forall|i: int| 0 <= i < s.drop_last().len() implies (#[trigger] s.drop_last()[i]).passed
                || s.drop_last()[i].allow_fail by {
                assert(s.drop_last()[i] == s[i]);
            }
        }
    }
}

proof fn lemma_no_heavy(s: Seq<Outcome>, above: u32)
    requires
        forall|i: int| 0 <= i < s.len() ==> (#[trigger] s[i]).passed || s[i].allow_fail,
    ensures
        heavy_reasons(s, above).len() == 0,
    decreases s.len(),
{
    if s.len() > 0 {
        assert(s.last() == s[s.len() - 1]);
        assert forall|i: int| 0 <= i < s.drop_last().len() implies (#[trigger] s.drop_last()[i]).passed
            || s.drop_last()[i].allow_fail by {
            assert(s.drop_last()[i] == s[i]);
        }
        lemma_no_heavy(s.drop_last(), above);
    }
}

/// Gating is opt-in: a gate that sets no threshold passes every run, whatever failed.
pub proof fn law_absent_gate_passes(s: Seq<Outcome>)
    ensures
        gate_reasons(
            s,
            GateConfig { min_score: None, max_tolerated: None, fail_above_weight: None },
        ).len() == 0,
{
}

/// A declared exemption is not a surprise: the weight rule never fires for a failure that was
/// tolerated, however heavy.
pub proof fn law_tolerated_heavy_failure_passes_weight_rule(s: Seq<Outcome>, above: u32)
    requires
        forall|i: int| 0 <= i < s.len() ==> (#[trigger] s[i]).passed || s[i].allow_fail,
    ensures
        heavy_reasons(s, above).len() == 0,
{
    lemma_no_heavy(s, above);
}

proof fn lemma_prefix_step(s: Seq<Outcome>, i: int)
    requires
        0 <= i < s.len(),
    ensures
        s.take(i + 1).drop_last() == s.take(i),
        s.take(i + 1).last() == s[i],
{
    assert(s.take(i + 1).drop_last() =~= s.take(i));
}

/// The sentence for a `min_score` above everything the suite could ever score.
pub open spec fn unreachable_reason(least: nat, most: nat) -> Seq<char> {
    "gate.min_score is "@ + decimal(least) + " and the whole suite is worth "@ + decimal(most)
        + ", so this threshold can never be met. It is a weighted total, not a percentage: add up the `weight:` of your cases to choose it"@
}

/// The sentence for a score that fell short of a reachable `min_score`.
pub open spec fn shortfall_reason(score: nat, most: nat, least: nat) -> Seq<char> {
    "the weighted score is "@ + decimal(score) + " of "@ + decimal(most) + ", below the "@ + decimal(
        least,
    ) + " this project requires"@
}

/// The sentence for more tolerated failures than allowed.
pub open spec fn tolerated_reason(tolerated: nat, most: nat) -> Seq<char> {
    decimal(tolerated) + " tolerated failures, and this project allows "@ + decimal(most)
}

/// The sentence for a heavy case that failed.
pub open spec fn heavy_reason(name: Seq<char>, weight: nat, above: nat) -> Seq<char> {
    "`"@ + name + "` failed, and its weight of "@ + decimal(weight) + " is above the "@ + decimal(
        above,
    ) + " this project treats as unconditional"@
}

/// What `min_score` says of a run summarised as `sum`.
pub open spec fn score_reasons(sum: Summary, min_score: Option<u32>) -> Seq<Seq<char>> {
    match min_score {
        Some(least) => if least > sum.max_score {
            seq![unreachable_reason(least as nat, sum.max_score as nat)]
        } else if sum.score < least {
            seq![shortfall_reason(sum.score as nat, sum.max_score as nat, least as nat)]
        } else {
            Seq::empty()
        },
        None => Seq::empty(),
    }
}

/// What `max_tolerated` says of a run summarised as `sum`.
pub open spec fn tolerance_reasons(sum: Summary, max_tolerated: Option<usize>) -> Seq<Seq<char>> {
    match max_tolerated {
        Some(most) => if sum.tolerated > most {
            seq![tolerated_reason(sum.tolerated as nat, most as nat)]
        } else {
            Seq::empty()
        },
        None => Seq::empty(),
    }
}

/// Whether `o` failed, was not tolerated, and weighs more than `above`.
pub open spec fn is_heavy_failure(o: Outcome, above: u32) -> bool {
    !o.passed && !o.allow_fail && o.weight > above
}

/// One sentence per heavy failure of `s`, in order.
pub open spec fn heavy_reasons(s: Seq<Outcome>, above: u32) -> Seq<Seq<char>>
    decreases s.len(),
{
    if s.len() == 0 {
        Seq::empty()
    } else if is_heavy_failure(s.last(), above) {
        heavy_reasons(s.drop_last(), above).push(
            heavy_reason(s.last().name@, s.last().weight as nat, above as nat),
        )
    } else {
        heavy_reasons(s.drop_last(), above)
    }
}

/// Every reason a run whose outcomes are `s` fails `gate`, in the order the thresholds are
/// declared.
pub open spec fn gate_reasons(s: Seq<Outcome>, gate: GateConfig) -> Seq<Seq<char>> {
    score_reasons(summary_of(s), gate.min_score) + tolerance_reasons(summary_of(s), gate.max_tolerated)
        + match gate.fail_above_weight {
        Some(above) => heavy_reasons(s, above),
        None => Seq::empty(),
    }
}

impl From<Vec<Outcome>> for Report {
    fn from(outcomes: Vec<Outcome>) -> (r: Report) {
        Report { outcomes }
    }
}

impl vstd::std_specs::convert::FromSpecImpl<Vec<Outcome>> for Report {
    open spec fn obeys_from_spec() -> bool {
        true
    }

    open spec fn from_spec(outcomes: Vec<Outcome>) -> Report {
        Report { outcomes }
    }
}

impl Report {
    /// A report of `outcomes`, in that order.
    pub fn from_outcomes(outcomes: Vec<Outcome>) -> (r: Report)
        ensures
            r.outcomes@ == outcomes@,
    {
        Report { outcomes }
    }

    /// Computes the counts and the weighted score.
    pub fn summary(&self) -> (sum: Summary)
        ensures
            sum == summary_of(self.outcomes@),
    {
        let mut sum = Summary {
            total: self.outcomes.len(),
            passed: 0,
            failed: 0,
            tolerated: 0,
            score: 0,
            max_score: 0,
            duration_ms: 0,
        };
        let ghost s = self.outcomes@;
        let mut i: usize = 0;
        while i < self.outcomes.len()
            invariant
                i <= s.len(),
                s == self.outcomes@,
                sum.total == s.len(),
                sum.passed == passing(s.take(i as int)),
                sum.failed == failing(s.take(i as int)),
                sum.tolerated == tolerating(s.take(i as int)),
                sum.score == capped(weight_held(s.take(i as int)), u32::MAX as nat),
                sum.max_score == capped(weight_total(s.take(i as int)), u32::MAX as nat),
                sum.duration_ms == capped(time_total(s.take(i as int)), u64::MAX as nat),
            decreases s.len() - i,
        {
            let outcome = &self.outcomes[i];
            proof {
                lemma_prefix_step(s, i as int);
                lemma_counts_partition(s.take(i as int));
            }
            sum.max_score = sum.max_score.saturating_add(outcome.weight);
            sum.duration_ms = sum.duration_ms.saturating_add(outcome.duration_ms);
            if outcome.passed {
                sum.passed = sum.passed + 1;
                sum.score = sum.score.saturating_add(outcome.weight);
            } else if outcome.allow_fail {
                sum.tolerated = sum.tolerated + 1;
            } else {
                sum.failed = sum.failed + 1;
            }
            i = i + 1;
        }
        assert(s.take(s.len() as int) =~= s);
        sum
    }

    /// Whether the run should be considered a success: no case failed without being tolerated.
    pub fn is_success(&self) -> (ok: bool)
        ensures
            ok == (failing(self.outcomes@) == 0),
    {
        let n = self.outcomes.len();
        proof {
            lemma_counts_partition(self.outcomes@);
        }
        assert(failing(self.outcomes@) <= n);
        self.summary().failed == 0
    }

    /// Whether this run cleared `gate`, and every reason it did not.
    ///
    /// **Every** reason, not the first: fixing one threshold to discover another is two runs where
    /// one would do.
    pub fn gate(&self, gate: &GateConfig) -> (g: Gating)
        ensures
            views(g.reasons@) == gate_reasons(self.outcomes@, *gate),
            g.passed == (g.reasons@.len() == 0),
    {
        let sum = self.summary();
        let mut reasons: Vec<String> = Vec::new();

        if let Some(least) = gate.min_score {
            if least > sum.max_score {
                let mut line = String::from_str("gate.min_score is ");
                line.append(crate::text::decimal_string(least as u64).as_str());
                line.append(" and the whole suite is worth ");
                line.append(crate::text::decimal_string(sum.max_score as u64).as_str());
                line.append(
                    ", so this threshold can never be met. It is a weighted total, not a percentage: add up the `weight:` of your cases to choose it",
                );
                reasons.push(line);
            } else if sum.score < least {
                let mut line = String::from_str("the weighted score is ");
                line.append(crate::text::decimal_string(sum.score as u64).as_str());
                line.append(" of ");
                line.append(crate::text::decimal_string(sum.max_score as u64).as_str());
                line.append(", below the ");
                line.append(crate::text::decimal_string(least as u64).as_str());
                line.append(" this project requires");
                reasons.push(line);
            }
        }
        assert(views(reasons@) =~= score_reasons(sum, gate.min_score));

        if let Some(most) = gate.max_tolerated {
            if sum.tolerated > most {
                let mut line = crate::text::decimal_string(sum.tolerated as u64);
                line.append(" tolerated failures, and this project allows ");
                line.append(crate::text::decimal_string(most as u64).as_str());
                reasons.push(line);
            }
        }
        let ghost before_heavy = views(reasons@);
        assert(before_heavy =~= score_reasons(sum, gate.min_score) + tolerance_reasons(
            sum,
            gate.max_tolerated,
        ));

        if let Some(above) = gate.fail_above_weight {
            let ghost s = self.outcomes@;
            let mut i: usize = 0;
            while i < self.outcomes.len()
                invariant
                    i <= s.len(),
                    s == self.outcomes@,
                    views(reasons@) == before_heavy + heavy_reasons(s.take(i as int), above),
                decreases s.len() - i,
            {
                let outcome = &self.outcomes[i];
                proof {
                    lemma_prefix_step(s, i as int);
                }
                if !outcome.passed && !outcome.allow_fail && outcome.weight > above {
                    let mut line = String::from_str("`");
                    line.append(outcome.name.as_str());
                    line.append("` failed, and its weight of ");
                    line.append(crate::text::decimal_string(outcome.weight as u64).as_str());
                    line.append(" is above the ");
                    line.append(crate::text::decimal_string(above as u64).as_str());
                    line.append(" this project treats as unconditional");
                    let ghost old_reasons = reasons@;
                    reasons.push(line);
                    assert(views(reasons@) =~= views(old_reasons).push(line@));
                }
                i = i + 1;
            }
            assert(s.take(s.len() as int) =~= s);
        } else {
            assert(views(reasons@) =~= before_heavy + Seq::<Seq<char>>::empty());
        }
        let passed = reasons.len() == 0;
        Gating { passed, reasons }
    }

    /// Whether this run passed: every case held or was tolerated, and the project's thresholds
    /// held too. A run that met every assertion but missed the project's bar did not pass.
    pub fn clears(&self, gate: &GateConfig) -> (ok: bool)
        ensures
            ok == (failing(self.outcomes@) == 0 && gate_reasons(self.outcomes@, *gate).len() == 0),
    {
        let success = self.is_success();
        let gating = self.gate(gate);
        proof {
            assert(views(gating.reasons@).len() == gating.reasons@.len());
        }
        success && gating.passed
    }

    /// Concatenates reports. Merging is concatenation precisely because no summary is stored.
    pub fn merge(reports: Vec<Report>) -> (r: Report)
        ensures
            r.outcomes@ == flattened(reports@),
    {
        let mut outcomes: Vec<Outcome> = Vec::new();
        let mut rest = reports;
        while rest.len() > 0
            invariant
                outcomes@ + flattened(rest@) == flattened(reports@),
            decreases rest@.len(),
        {
            let ghost before = rest@;
            let mut report = rest.remove(0);
            assert(before =~= seq![report] + rest@);
            assert(before.drop_first() =~= rest@);
            outcomes.append(&mut report.outcomes);
        }
        assert(outcomes@ + flattened(rest@) =~= outcomes@);
        Report { outcomes }
    }
}

/// The outcomes of `reports`, one report after another.
pub open spec fn flattened(reports: Seq<Report>) -> Seq<Outcome>
    decreases reports.len(),
{
    if reports.len() == 0 {
        Seq::empty()
    } else {
        reports[0].outcomes@ + flattened(reports.drop_first())
    }
}

/// Whether a run cleared the project's thresholds, and why not.
#[derive(Debug, Clone)]
pub struct Gating {
    /// Whether every enforced threshold held.
    pub passed: bool,
    /// One sentence per threshold that did not, in the order they are declared.
    pub reasons: Vec<String>,
}

/// A duration in the shortest form that stays honest, such as `312ms` or `1.2s`.
pub open spec fn duration_text(ms: nat) -> Seq<char> {
    if ms < 1000 {
        decimal(ms) + "ms"@
    } else {
        decimal(ms / 1000) + seq!['.', digit(((ms % 1000) / 100) as int), 's']
    }
}

/// A duration in the shortest form that stays honest: milliseconds under a second, tenths of a
/// second above.
pub fn duration(ms: u64) -> (out: String)
    ensures
        out@ == duration_text(ms as nat),
{
    if ms < 1000 {
        let mut out = crate::text::decimal_string(ms);
        out.append("ms");
        out
    } else {
        let mut out = crate::text::decimal_string(ms / 1000);
        crate::text::push_char(&mut out, '.');
        let tenth = crate::text::decimal_string((ms % 1000) / 100);
        proof {
            assert((ms % 1000) / 100 < 10);
        }
        out.append(tenth.as_str());
        crate::text::push_char(&mut out, 's');
        out
    }
}

/// A duration as decimal seconds, with exactly three digits after the point.
pub open spec fn seconds_text(ms: nat) -> Seq<char> {
    decimal(ms / 1000) + seq![
        '.',
        digit(((ms % 1000) / 100) as int),
        digit(((ms % 100) / 10) as int),
        digit((ms % 10) as int),
    ]
}

/// A duration as decimal seconds, which is what JUnit's `time=` means.
pub fn seconds(ms: u64) -> (out: String)
    ensures
        out@ == seconds_text(ms as nat),
{
    let mut out = crate::text::decimal_string(ms / 1000);
    crate::text::push_char(&mut out, '.');
    let a = crate::text::decimal_string((ms % 1000) / 100);
    let b = crate::text::decimal_string((ms % 100) / 10);
    let c = crate::text::decimal_string(ms % 10);
    out.append(a.as_str());
    out.append(b.as_str());
    out.append(c.as_str());
    out
}

/// The lines one diff is worded with.
pub open spec fn diff_text(d: Diff) -> Seq<char> {
    "    "@ + d.path@ + "\n      expected  "@ + d.expected@ + "\n      got       "@ + d.got@
}

/// The failure lines for one outcome, in the order they are printed.
pub open spec fn failure_text(o: Outcome) -> Seq<Seq<char>> {
    o.diffs@.map_values(|d: Diff| diff_text(d)) + (if o.unexpected_calls@.len() > 0 {
        seq![
            "    unexpected calls\n      got       "@ + joined(views(o.unexpected_calls@), ", "@),
        ]
    } else {
        Seq::empty()
    }) + (if o.unmentioned_files@.len() > 0 {
        seq!["    (also written, not asserted: "@ + joined(views(o.unmentioned_files@), ", "@) + ")"@]
    } else {
        Seq::empty()
    })
}

/// The failure lines for one outcome, ready to print: the expectation path, what was wanted,
/// what was found.
pub fn failure_lines(outcome: &Outcome) -> (lines: Vec<String>)
    ensures
        views(lines@) == failure_text(*outcome),
{
    let mut lines: Vec<String> = Vec::new();
    let mut i: usize = 0;
    while i < outcome.diffs.len()
        invariant
            i <= outcome.diffs.len(),
            views(lines@) == outcome.diffs@.take(i as int).map_values(|d: Diff| diff_text(d)),
        decreases outcome.diffs.len() - i,
    {
        let d = &outcome.diffs[i];
        let mut line = String::from_str("    ");
        line.append(d.path.as_str());
        line.append("\n      expected  ");
        line.append(d.expected.as_str());
        line.append("\n      got       ");
        line.append(d.got.as_str());
        assert(line@ == diff_text(*d));
        let ghost before = lines@;
        lines.push(line);
        assert(views(lines@) =~= views(before).push(line@));
        assert(outcome.diffs@.take(i + 1).map_values(|d: Diff| diff_text(d)) =~= outcome.diffs@.take(
            i as int,
        ).map_values(|d: Diff| diff_text(d)).push(diff_text(outcome.diffs@[i as int])));
        i = i + 1;
    }
    assert(outcome.diffs@.take(outcome.diffs.len() as int) =~= outcome.diffs@);
    let ghost first = views(lines@);
    if outcome.unexpected_calls.len() > 0 {
        let mut line = String::from_str("    unexpected calls\n      got       ");
        let calls = crate::text::join(&outcome.unexpected_calls, ", ");
        line.append(calls.as_str());
        lines.push(line);
    }
    let ghost second = views(lines@);
    if outcome.unmentioned_files.len() > 0 {
        let mut line = String::from_str("    (also written, not asserted: ");
        let files = crate::text::join(&outcome.unmentioned_files, ", ");
        line.append(files.as_str());
        line.append(")");
        lines.push(line);
    }
    assert(views(lines@) =~= failure_text(*outcome));
    lines
}

/// Lines, each followed by a newline, one after another.
pub open spec fn lines_text(lines: Seq<Seq<char>>) -> Seq<char>
    decreases lines.len(),
{
    if lines.len() == 0 {
        Seq::empty()
    } else {
        lines_text(lines.drop_last()) + lines.last() + seq!['\n']
    }
}

/// Appends each of `lines` to `out`, each followed by a newline.
pub fn push_lines(out: &mut String, lines: &Vec<String>)
    ensures
        final(out)@ == old(out)@ + lines_text(views(lines@)),
{
    let mut i: usize = 0;
    while i < lines.len()
        invariant
            i <= lines.len(),
            out@ == old(out)@ + lines_text(views(lines@.take(i as int))),
        decreases lines.len() - i,
    {
        out.append(lines[i].as_str());
        crate::text::push_char(out, '\n');
        proof {
            let next = views(lines@.take(i + 1));
            assert(next.drop_last() =~= views(lines@.take(i as int)));
            assert(next.last() == lines@[i as int]@);
        }
        i = i + 1;
    }
    assert(lines@.take(lines.len() as int) =~= lines@);
}

/// Somewhere outcomes are rendered as they arrive.
///
/// Outcomes are emitted **one per finished case**, not only aggregated at the end.
pub trait Sink {
    /// Called as soon as one case has a verdict.
    fn case_finished(&mut self, outcome: &Outcome);

    /// Called once, after the last case.
    fn finish(&mut self, report: &Report);

    /// What the engine decided before invoking a case. Nothing by default.
    fn preparing(&mut self, case: &str, note: &[String]) {
    }

    /// What the subject produced, before the verdict on it. Nothing by default.
    fn observed(&mut self, case: &str, observations: &Observations) {
    }

    /// The exchanges the case declared, in order, each with the name it gave itself. Nothing by
    /// default.
    fn declares_steps(&mut self, case: &str, names: &[Option<String>]) {
    }
}

/// Feeds several renderers from one run.
pub struct Tee<'a> {
    sinks: Vec<Box<dyn Sink + 'a>>,
}

impl<'a> Tee<'a> {
    /// How many renderers the tee feeds.
    pub closed spec fn fed(&self) -> nat {
        self.sinks@.len()
    }

    /// A tee with no renderers. Harmless until one is added.
    pub fn new() -> (t: Self)
        ensures
            t.fed() == 0,
    {
        Tee { sinks: Vec::new() }
    }

    /// Adds a renderer, fed after those already added.
    pub fn add(&mut self, sink: Box<dyn Sink + 'a>) {
        self.sinks.push(sink);
    }
}

impl<'a> Sink for Tee<'a> {
    fn case_finished(&mut self, outcome: &Outcome) {
        let mut i: usize = 0;
        while i < self.sinks.len()
            decreases self.sinks.len() - i,
        {
            self.sinks[i].case_finished(outcome);
            i = i + 1;
        }
    }

    fn finish(&mut self, report: &Report) {
        let mut i: usize = 0;
        while i < self.sinks.len()
            decreases self.sinks.len() - i,
        {
            self.sinks[i].finish(report);
            i = i + 1;
        }
    }

    fn preparing(&mut self, case: &str, note: &[String]) {
        let mut i: usize = 0;
        while i < self.sinks.len()
            decreases self.sinks.len() - i,
        {
            self.sinks[i].preparing(case, note);
            i = i + 1;
        }
    }

    fn observed(&mut self, case: &str, observations: &Observations) {
        let mut i: usize = 0;
        while i < self.sinks.len()
            decreases self.sinks.len() - i,
        {
            self.sinks[i].observed(case, observations);
            i = i + 1;
        }
    }

    fn declares_steps(&mut self, case: &str, names: &[Option<String>]) {
        let mut i: usize = 0;
        while i < self.sinks.len()
            decreases self.sinks.len() - i,
        {
            self.sinks[i].declares_steps(case, names);
            i = i + 1;
        }
    }
}

} // verus!
