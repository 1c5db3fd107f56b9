//! The human-readable report: one line per case as it finishes, then a summary.
//!
//! The renderer keeps what it has written in a buffer; whoever owns the terminal drains it as the
//! run goes.

use vstd::prelude::*;
use crate::outcome::Outcome;
use crate::report::{
    Report, Sink, duration, duration_text, failure_lines, failure_text, lines_text, push_lines,
    summary_of,
};
use crate::report::rank::{lemma_insert_at, lemma_ranked_contents, law_ranking_is_sorted, ranked_by, strict};
use crate::text::{decimal, joined};

verus! {

/// The rendering of `text` in the terminal colour numbered `code`, as `anstyle` writes it.
pub uninterp spec fn painted(code: u8, text: Seq<char>) -> Seq<char>;

/// `text` in the foreground colour numbered `code` (one of the sixteen basic terminal colours),
/// followed by the code that resets the style.
///
/// Builds an `anstyle::Style` with that foreground colour and writes it, the text and its reset
/// through `Display`. The result is named rather than spelled out: it is the escape sequence
/// `anstyle` chooses.
#[verifier::external_body]
fn paint(code: u8, text: &str) -> (out: String)
    requires
        code < 16,
    ensures
        out@ == painted(code, text@),
{
    let color = anstyle::Ansi256Color(code).into_ansi().map(anstyle::Color::Ansi);
    let style = anstyle::Style::new().fg_color(color);
    format!("{style}{text}{style:#}")
}

/// Writes outcomes as they finish, then a summary.
pub struct Terminal {
    out: String,
    styled: bool,
}

/// How one outcome opens its line.
///
/// A tolerated failure must not look like a passing case, nor like a real failure.
pub open spec fn marker(o: Outcome) -> Seq<char> {
    if o.passed {
        "ok  "@
    } else if o.allow_fail {
        "warn"@
    } else {
        "FAIL"@
    }
}

/// The colour that goes with the marker: green, yellow or red.
pub open spec fn marker_color(o: Outcome) -> u8 {
    if o.passed {
        2
    } else if o.allow_fail {
        3
    } else {
        1
    }
}

/// A case's duration, but only once it is worth a reader's attention: a second or more.
pub open spec fn noted(ms: nat) -> Seq<char> {
    if ms >= 1000 {
        "  "@ + duration_text(ms)
    } else {
        Seq::empty()
    }
}

/// The weight a case scored: all of it when it passed, nothing otherwise.
pub open spec fn scored(o: Outcome) -> nat {
    if o.passed { o.weight as nat } else { 0 }
}

/// What one finished case writes.
pub open spec fn case_text(o: Outcome, styled: bool) -> Seq<char> {
    head_text(o, styled) + lines_text(failure_text(o))
}

/// `case` or `cases`, so a single-case run does not read as a typo.
pub open spec fn plural_text(total: nat) -> Seq<char> {
    if total == 1 { "case"@ } else { "cases"@ }
}

/// Whether position `a` ran strictly longer than position `b`.
pub open spec fn slower(times: Seq<u64>) -> spec_fn(int, int) -> bool {
    |a: int, b: int| times[b] < times[a]
}

/// The positions of `times`, slowest first; equal durations keep their order.
pub open spec fn ranked(times: Seq<u64>, n: int) -> Seq<int> {
    ranked_by(slower(times), n)
}

/// The ranking names every case once, slowest first, cases that took equally long in the order
/// they finished.
pub proof fn law_slowest_first(times: Seq<u64>)
    ensures
        ({
            let r = ranked(times, times.len() as int);
            &&& r.len() == times.len()
            &&& forall|p: int| 0 <= p < times.len() ==> r.to_multiset().count(p) == 1
            &&& forall|j: int, k: int| 0 <= j < k < times.len() ==> times[#[trigger] r[j]] >= times[#[trigger] r[k]]
        }),
{
    let p = slower(times);
    assert(strict(p)) by {
        assert forall|a: int| !#[trigger] p(a, a) by {}
        assert forall|a: int, b: int, c: int| #[trigger] p(a, b) && #[trigger] p(b, c) implies p(a, c) by {}
    }
    law_ranking_is_sorted(p, times.len() as int);
    lemma_ranked_contents(p, times.len() as int);
}

/// The score a case line shows is what that case adds to the run's score: a run of `s` followed
/// by `o` holds the weight of `s` plus what `o`'s line shows, a case that did not pass — tolerated
/// or not — shows nothing scored, and a plain line reads `marker name  scored/weight`.
pub proof fn law_a_case_line_shows_what_it_adds_to_the_score(s: Seq<Outcome>, o: Outcome)
    ensures
        crate::report::weight_held(s.push(o)) == crate::report::weight_held(s) + scored(o),
        scored(o) == crate::report::weight_held(seq![o]),
        !o.passed ==> scored(o) == 0,
        o.passed ==> scored(o) == o.weight,
        head_text(o, false) == marker(o) + " "@ + o.name@ + "  "@ + decimal(
            crate::report::weight_held(seq![o]),
        ) + "/"@ + decimal(o.weight as nat) + noted(o.duration_ms as nat) + "\n"@,
{
    assert(s.push(o).drop_last() =~= s);
    assert(seq![o].drop_last() =~= Seq::<Outcome>::empty());
    assert(crate::report::weight_held(Seq::<Outcome>::empty()) == 0);
    assert(seq![o].last() == o);
    assert(crate::report::weight_held(seq![o]) == scored(o));
}

/// A tolerated failure opens its line differently from a real failure and from a pass.
pub proof fn law_three_markers(o: Outcome)
    ensures
        !o.passed && o.allow_fail ==> marker(o) != "FAIL"@ && marker(o) != "ok  "@,
        !o.passed && !o.allow_fail ==> marker(o) == "FAIL"@,
        o.passed ==> marker(o) == "ok  "@,
{
    reveal_strlit("FAIL");
    reveal_strlit("ok  ");
    reveal_strlit("warn");
    if !o.passed && o.allow_fail {
        assert(marker(o)[0] == 'w');
    }
}

/// The durations of `s`, in order.
pub open spec fn times_of(s: Seq<Outcome>) -> Seq<u64> {
    s.map_values(|o: Outcome| o.duration_ms)
}

/// One entry of the ranking: the case's name and how long it took.
pub open spec fn ranked_entry(o: Outcome) -> Seq<char> {
    o.name@ + " "@ + duration_text(o.duration_ms as nat)
}

/// The ranking line of a run whose outcomes are `s`, if it has one.
///
/// Under three cases there is nothing to rank; when even the slowest took under a tenth of a
/// second, nothing is worth anyone's afternoon. Otherwise the three slowest, slowest first.
pub open spec fn slowest_text(s: Seq<Outcome>) -> Option<Seq<char>> {
    let r = ranked(times_of(s), s.len() as int);
    if s.len() < 3 {
        None
    } else if s[r[0]].duration_ms < 100 {
        None
    } else {
        Some(
            "slowest — "@ + joined(
                r.take(3).map_values(|k: int| ranked_entry(s[k])),
                " · "@,
            ),
        )
    }
}

/// What `finish` writes for a run whose outcomes are `s`.
pub open spec fn finish_text(s: Seq<Outcome>) -> Seq<char> {
    summary_text(s) + match slowest_text(s) {
        Some(line) => line + "\n"@,
        None => Seq::empty(),
    }
}

/// The positions of `outcomes`, slowest first.
fn rank_by_time(outcomes: &Vec<Outcome>) -> (order: Vec<usize>)
    ensures
        order@.map_values(|k: usize| k as int) == ranked(times_of(outcomes@), outcomes@.len() as int),
{
    let ghost times = times_of(outcomes@);
    let mut order: Vec<usize> = Vec::new();
    let mut i: usize = 0;
    while i < outcomes.len()
        invariant
            i <= outcomes.len(),
            times == times_of(outcomes@),
            order@.map_values(|k: usize| k as int) == ranked(times, i as int),
            forall|j: int| 0 <= j < order@.len() ==> #[trigger] order@[j] < i,
            order@.len() == i,
        decreases outcomes.len() - i,
    {
        let t = outcomes[i].duration_ms;
        let mut p: usize = 0;
        while p < order.len() && !(outcomes[order[p]].duration_ms < t)
            invariant
                p <= order@.len(),
                i < outcomes.len(),
                t == times[i as int],
                times == times_of(outcomes@),
                order@.len() == i,
                forall|j: int| 0 <= j < order@.len() ==> #[trigger] order@[j] < i,
                forall|j: int| 0 <= j < p ==> !(times[#[trigger] order@[j] as int] < times[i as int]),
            decreases order@.len() - p,
        {
            p = p + 1;
        }
        let ghost before = order@.map_values(|k: usize| k as int);
        let ghost raw = order@;
        proof {
            assert forall|j: int| 0 <= j < p implies !slower(times)(i as int, #[trigger] before[j]) by {
                assert(before[j] == order@[j] as int);
            }
            if p < order@.len() {
                assert(before[p as int] == order@[p as int] as int);
            }
            lemma_insert_at(slower(times), i as int, before, p as int);
        }
        order.insert(p, i);
        proof {
            assert(order@.map_values(|k: usize| k as int) =~= before.take(p as int) + seq![i as int]
                + before.skip(p as int));
            assert forall|j: int| 0 <= j < order@.len() implies #[trigger] order@[j] < i + 1 by {
                if j < p {
                    assert(order@[j] == raw[j]);
                } else if j > p {
                    assert(order@[j] == raw[j - 1]);
                }
            }
        }
        i = i + 1;
    }
    order
}

impl Terminal {
    /// What this renderer has written so far.
    pub closed spec fn written(&self) -> Seq<char> {
        self.out@
    }

    /// Whether this renderer colours its markers.
    pub closed spec fn is_styled(&self) -> bool {
        self.styled
    }

    /// A renderer with no styling, for tests and for pipes.
    pub fn plain() -> (t: Terminal)
        ensures
            t.written().len() == 0,
            !t.is_styled(),
    {
        Terminal { out: String::new(), styled: false }
    }

    /// A renderer that styles its markers.
    pub fn styled() -> (t: Terminal)
        ensures
            t.written().len() == 0,
            t.is_styled(),
    {
        Terminal { out: String::new(), styled: true }
    }

    /// Everything written so far.
    pub fn text(&self) -> (s: &str)
        ensures
            s@ == self.written(),
    {
        self.out.as_str()
    }

    /// Hands over what was written since the last call, leaving the buffer empty.
    pub fn drain(&mut self) -> (s: String)
        ensures
            s@ == old(self).written(),
            final(self).written().len() == 0,
            final(self).is_styled() == old(self).is_styled(),
    {
        let mut s = String::new();
        std::mem::swap(&mut s, &mut self.out);
        s
    }
}

/// The ranking line of `report`, if it has one.
fn slowest(report: &Report) -> (line: Option<String>)
    ensures
        line matches Some(l) ==> slowest_text(report.outcomes@) == Some(l@),
        line is None ==> slowest_text(report.outcomes@) is None,
{
    let ghost s = report.outcomes@;
    if report.outcomes.len() < 3 {
        return None;
    }
    let order = rank_by_time(&report.outcomes);
    proof {
        lemma_ranked_contents(slower(times_of(s)), s.len() as int);
    }
    let ghost r = ranked(times_of(s), s.len() as int);
    assert(r[0] == order@[0] as int);
    if report.outcomes[order[0]].duration_ms < 100 {
        return None;
    }
    let mut named: Vec<String> = Vec::new();
    let mut k: usize = 0;
    while k < 3
        invariant
            k <= 3,
            s == report.outcomes@,
            s.len() >= 3,
            r == ranked(times_of(s), s.len() as int),
            r.len() == s.len(),
            order@.len() == s.len(),
            forall|j: int| 0 <= j < s.len() ==> #[trigger] r[j] == order@[j] as int,
            forall|j: int| 0 <= j < s.len() ==> 0 <= #[trigger] r[j] < s.len(),
            crate::text::views(named@) == r.take(k as int).map_values(|q: int| ranked_entry(s[q])),
        decreases 3 - k,
    {
        assert(r[k as int] == order@[k as int] as int);
        let o = &report.outcomes[order[k]];
        let mut entry = o.name.clone();
        entry.append(" ");
        entry.append(duration(o.duration_ms).as_str());
        let ghost before = named@;
        named.push(entry);
        proof {
            assert(r[k as int] == order@[k as int] as int);
            assert(crate::text::views(named@) =~= crate::text::views(before).push(entry@));
            assert(r.take(k + 1).map_values(|q: int| ranked_entry(s[q])) =~= r.take(k as int).map_values(
                |q: int| ranked_entry(s[q]),
            ).push(ranked_entry(s[r[k as int]])));
        }
        k = k + 1;
    }
    let mut line = String::from_str("slowest — ");
    line.append(crate::text::join(&named, " · ").as_str());
    Some(line)
}

/// The line one finished case opens with, before its failures.
pub open spec fn head_text(o: Outcome, styled: bool) -> Seq<char> {
    (if styled { painted(marker_color(o), marker(o)) } else { marker(o) }) + " "@ + o.name@ + "  "@
        + decimal(scored(o)) + "/"@ + decimal(o.weight as nat) + noted(o.duration_ms as nat) + "\n"@
}

fn head_line(outcome: &Outcome, styled: bool) -> (line: String)
    ensures
        line@ == head_text(*outcome, styled),
{
    let mark = if outcome.passed {
        "ok  "
    } else if outcome.allow_fail {
        "warn"
    } else {
        "FAIL"
    };
    let code: u8 = if outcome.passed {
        2
    } else if outcome.allow_fail {
        3
    } else {
        1
    };
    let mut line = if styled {
        paint(code, mark)
    } else {
        String::from_str(mark)
    };
    line.append(" ");
    line.append(outcome.name.as_str());
    line.append("  ");
    let scored_now: u32 = if outcome.passed { outcome.weight } else { 0 };
    line.append(crate::text::decimal_string(scored_now as u64).as_str());
    line.append("/");
    line.append(crate::text::decimal_string(outcome.weight as u64).as_str());
    let ghost upto = line@;
    if outcome.duration_ms >= 1000 {
        line.append("  ");
        line.append(duration(outcome.duration_ms).as_str());
        assert(line@ =~= upto + noted(outcome.duration_ms as nat));
    } else {
        assert(line@ =~= upto + noted(outcome.duration_ms as nat));
    }
    line.append("\n");
    line
}

/// The summary line `finish` opens with.
pub open spec fn summary_text(s: Seq<Outcome>) -> Seq<char> {
    let sum = summary_of(s);
    "\ngaveldrop — "@ + decimal(sum.total as nat) + " "@ + plural_text(sum.total as nat) + " · "@
        + decimal(sum.passed as nat) + " passed · "@ + decimal(sum.failed as nat) + " failed · "@
        + decimal(sum.tolerated as nat) + " tolerated · score "@ + decimal(sum.score as nat) + "/"@
        + decimal(sum.max_score as nat) + " · "@ + duration_text(sum.duration_ms as nat) + "\n"@
}

fn summary_line(report: &Report) -> (line: String)
    ensures
        line@ == summary_text(report.outcomes@),
{
    let sum = report.summary();
    let mut line = String::from_str("\ngaveldrop — ");
    line.append(crate::text::decimal_string(sum.total as u64).as_str());
    line.append(" ");
    line.append(if sum.total == 1 { "case" } else { "cases" });
    line.append(" · ");
    line.append(crate::text::decimal_string(sum.passed as u64).as_str());
    line.append(" passed · ");
    line.append(crate::text::decimal_string(sum.failed as u64).as_str());
    line.append(" failed · ");
    line.append(crate::text::decimal_string(sum.tolerated as u64).as_str());
    line.append(" tolerated · score ");
    line.append(crate::text::decimal_string(sum.score as u64).as_str());
    line.append("/");
    line.append(crate::text::decimal_string(sum.max_score as u64).as_str());
    line.append(" · ");
    line.append(duration(sum.duration_ms).as_str());
    line.append("\n");
    line
}

impl Sink for Terminal {
    fn case_finished(&mut self, outcome: &Outcome)
        ensures
            final(self).written() == old(self).written() + case_text(*outcome, old(self).is_styled()),
            final(self).is_styled() == old(self).is_styled(),
    {
        let head = head_line(outcome, self.styled);
        self.out.append(head.as_str());
        let lines = failure_lines(outcome);
        push_lines(&mut self.out, &lines);
        assert(self.out@ =~= old(self).out@ + case_text(*outcome, old(self).styled));
    }

    fn finish(&mut self, report: &Report)
        ensures
            final(self).written() == old(self).written() + finish_text(report.outcomes@),
            final(self).is_styled() == old(self).is_styled(),
    {
        let line = summary_line(report);
        self.out.append(line.as_str());
        match slowest(report) {
            Some(rank) => {
                self.out.append(rank.as_str());
                self.out.append("\n");
                assert(self.out@ =~= old(self).out@ + finish_text(report.outcomes@));
            },
            None => {
                assert(self.out@ =~= old(self).out@ + finish_text(report.outcomes@));
            },
        }
    }
}

} // verus!
