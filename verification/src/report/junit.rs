//! The JUnit XML report.
//!
//! **This renderer is the one that cannot stream.** Its header carries the totals, so nothing can be
//! written until the last case has finished.

use vstd::prelude::*;
use crate::outcome::{Diff, Outcome, alike};
use crate::report::{Report, Sink, diff_text, seconds, seconds_text, summary_of};
use crate::strmap::StrMap;
use crate::text::{begins, decimal, joined};

verus! {

/// Whether XML 1.0 forbids this character outright.
pub open spec fn forbidden(c: char) -> bool {
    ((c as u32) < 0x20 && c != '\t' && c != '\n' && c != '\r') || (c as u32) == 0xFFFE || (c as u32)
        == 0xFFFF
}

/// What one character becomes inside an XML document.
pub open spec fn xml_char(c: char) -> Seq<char> {
    if forbidden(c) {
        Seq::empty()
    } else if c == '&' {
        "&amp;"@
    } else if c == '<' {
        "&lt;"@
    } else if c == '>' {
        "&gt;"@
    } else if c == '"' {
        "&quot;"@
    } else if c == '\'' {
        "&apos;"@
    } else {
        seq![c]
    }
}

/// Text safe to put inside an XML document, in an attribute or in an element: the five special
/// characters escaped, the characters XML cannot carry dropped.
pub open spec fn xml_escaped(text: Seq<char>) -> Seq<char>
    decreases text.len(),
{
    if text.len() == 0 {
        Seq::empty()
    } else {
        xml_escaped(text.drop_last()) + xml_char(text.last())
    }
}

/// Whatever the subject printed, its escaped form is safe in an attribute or an element: it holds
/// none of `<`, `>`, `"`, `'`, and no character XML forbids.
pub proof fn law_escaped_is_well_formed(text: Seq<char>)
    ensures
        forall|i: int|
            0 <= i < xml_escaped(text).len() ==> #[trigger] xml_escaped(text)[i] != '<' && xml_escaped(
                text,
            )[i] != '>' && xml_escaped(text)[i] != '"' && xml_escaped(text)[i] != '\''
                && !forbidden(xml_escaped(text)[i]),
    decreases text.len(),
{
    reveal_strlit("&amp;");
    reveal_strlit("&lt;");
    reveal_strlit("&gt;");
    reveal_strlit("&quot;");
    reveal_strlit("&apos;");
    if text.len() > 0 {
        law_escaped_is_well_formed(text.drop_last());
        let head = xml_escaped(text.drop_last());
        let tail = xml_char(text.last());
        assert forall|i: int| 0 <= i < xml_escaped(text).len() implies #[trigger] xml_escaped(text)[i] != '<'
            && xml_escaped(text)[i] != '>' && xml_escaped(text)[i] != '"' && xml_escaped(text)[i] != '\''
            && !forbidden(xml_escaped(text)[i]) by {
            if i < head.len() {
                assert(xml_escaped(text)[i] == head[i]);
            } else {
                assert(xml_escaped(text)[i] == tail[i - head.len()]);
            }
        }
    }
}

/// Whether XML 1.0 forbids `c` outright.
pub fn is_forbidden(c: char) -> (b: bool)
    ensures
        b == forbidden(c),
{
    let code = c as u32;
    (code < 0x20 && c != '\t' && c != '\n' && c != '\r') || code == 0xFFFE || code == 0xFFFF
}

/// `text`, safe to put inside an XML document.
pub fn escaped(text: &str) -> (out: String)
    ensures
        out@ == xml_escaped(text@),
{
    let cs = crate::text::chars_of(text);
    let mut out = String::new();
    let mut i: usize = 0;
    while i < cs.len()
        invariant
            i <= cs.len(),
            cs@ == text@,
            out@ == xml_escaped(cs@.take(i as int)),
        decreases cs.len() - i,
    {
        let c = cs[i];
        if is_forbidden(c) {
        } else if c == '&' {
            out.append("&amp;");
        } else if c == '<' {
            out.append("&lt;");
        } else if c == '>' {
            out.append("&gt;");
        } else if c == '"' {
            out.append("&quot;");
        } else if c == '\'' {
            out.append("&apos;");
        } else {
            crate::text::push_char(&mut out, c);
        }
        assert(cs@.take(i + 1).drop_last() =~= cs@.take(i as int));
        i = i + 1;
    }
    assert(cs@.take(cs.len() as int) =~= cs@);
    out
}

/// The one-line summary a dashboard shows before anyone opens the detail.
pub open spec fn headline(diffs: Seq<Diff>) -> Seq<char> {
    if diffs.len() == 0 {
        "an unexpected call reached the catch-all"@
    } else if diffs.len() == 1 {
        diffs[0].path@
    } else {
        diffs[0].path@ + " and "@ + decimal((diffs.len() - 1) as nat) + " more"@
    }
}

/// The one-line summary of a failure: its first assertion path, and how many more there are.
pub fn summarise(diffs: &Vec<Diff>) -> (out: String)
    ensures
        out@ == headline(diffs@),
{
    if diffs.len() == 0 {
        String::from_str("an unexpected call reached the catch-all")
    } else if diffs.len() == 1 {
        diffs[0].path.clone()
    } else {
        let mut out = diffs[0].path.clone();
        out.append(" and ");
        out.append(crate::text::decimal_string((diffs.len() - 1) as u64).as_str());
        out.append(" more");
        out
    }
}

/// One `<testcase>` as the model sees it.
pub struct EntryModel {
    /// `gaveldrop`, or `gaveldrop.<case>` for an exchange of a case that declared several.
    pub classname: Seq<char>,
    /// The test's name.
    pub name: Seq<char>,
    /// How long it took, where that was measured.
    pub duration_ms: Option<u64>,
    /// The diffs it carries.
    pub diffs: Seq<Diff>,
    /// Whether it failed.
    pub failed: bool,
    /// Whether its failure was tolerated.
    pub tolerated: bool,
}

/// One `<testcase>` to write: a whole case, or one exchange of it.
pub struct Entry {
    classname: String,
    name: String,
    duration_ms: Option<u64>,
    diffs: Vec<Diff>,
    failed: bool,
    tolerated: bool,
}

impl Entry {
    /// What this entry says.
    pub closed spec fn model(&self) -> EntryModel {
        EntryModel {
            classname: self.classname@,
            name: self.name@,
            duration_ms: self.duration_ms,
            diffs: self.diffs@,
            failed: self.failed,
            tolerated: self.tolerated,
        }
    }
}

/// The diffs of `diffs` whose path begins with `prefix` (when `inside`) or does not (otherwise).
pub open spec fn sift(diffs: Seq<Diff>, prefix: Seq<char>, inside: bool) -> Seq<Diff>
    decreases diffs.len(),
{
    if diffs.len() == 0 {
        Seq::empty()
    } else if begins(diffs.last().path@, prefix) == inside {
        sift(diffs.drop_last(), prefix, inside).push(diffs.last())
    } else {
        sift(diffs.drop_last(), prefix, inside)
    }
}

/// The prefix every path of a diff from exchange `k` begins with.
pub open spec fn step_prefix(k: nat) -> Seq<char> {
    "steps["@ + decimal(k)
}

/// The name of exchange `k`: the one it gave itself, or its position counted from one.
pub open spec fn step_name(declared: Option<String>, k: nat) -> Seq<char> {
    match declared {
        Some(given) => given@,
        None => "step "@ + decimal(k + 1),
    }
}

/// The entry for exchange `k` of a case that declared `steps`.
pub open spec fn step_entry(o: Outcome, steps: Seq<Option<String>>, k: int) -> EntryModel {
    let diffs = sift(o.diffs@, step_prefix(k as nat), true);
    EntryModel {
        classname: "gaveldrop."@ + o.name@,
        name: step_name(steps[k], k as nat),
        duration_ms: None,
        diffs,
        failed: diffs.len() > 0,
        tolerated: diffs.len() > 0 && o.allow_fail,
    }
}

/// The entries one outcome contributes: itself alone, or — for a case that declared exchanges —
/// the run as a whole followed by one entry per exchange, grouped under `gaveldrop.<case>`.
pub open spec fn expanded_spec(o: Outcome, steps: Option<Seq<Option<String>>>) -> Seq<EntryModel> {
    match steps {
        None => seq![
            EntryModel {
                classname: "gaveldrop"@,
                name: o.name@,
                duration_ms: Some(o.duration_ms),
                diffs: o.diffs@,
                failed: !o.passed,
                tolerated: !o.passed && o.allow_fail,
            },
        ],
        Some(st) => {
            let whole = sift(o.diffs@, "steps["@, false);
            seq![
                EntryModel {
                    classname: "gaveldrop."@ + o.name@,
                    name: "the run as a whole"@,
                    duration_ms: Some(o.duration_ms),
                    diffs: whole,
                    failed: whole.len() > 0,
                    tolerated: whole.len() > 0 && o.allow_fail,
                },
            ] + Seq::new(st.len(), |k: int| step_entry(o, st, k))
        },
    }
}

fn sifted(diffs: &Vec<Diff>, prefix: &str, inside: bool) -> (out: Vec<Diff>)
    ensures
        out@ == sift(diffs@, prefix@, inside),
{
    let mut out: Vec<Diff> = Vec::new();
    let mut i: usize = 0;
    while i < diffs.len()
        invariant
            i <= diffs.len(),
            out@ == sift(diffs@.take(i as int), prefix@, inside),
        decreases diffs.len() - i,
    {
        let d = &diffs[i];
        assert(diffs@.take(i + 1).drop_last() =~= diffs@.take(i as int));
        if crate::text::starts_with(d.path.as_str(), prefix) == inside {
            out.push(d.copied());
        }
        i = i + 1;
    }
    assert(diffs@.take(diffs.len() as int) =~= diffs@);
    out
}

fn diffs_copied(diffs: &Vec<Diff>) -> (out: Vec<Diff>)
    ensures
        out@ == diffs@,
{
    let mut out: Vec<Diff> = Vec::new();
    let mut i: usize = 0;
    while i < diffs.len()
        invariant
            i <= diffs.len(),
            out@ == diffs@.take(i as int),
        decreases diffs.len() - i,
    {
        out.push(diffs[i].copied());
        assert(out@ =~= diffs@.take(i + 1));
        i = i + 1;
    }
    assert(out@ =~= diffs@);
    out
}

/// The entries of `outcome`, given the exchanges it declared, if any.
fn expanded(outcome: &Outcome, steps: Option<&Vec<Option<String>>>) -> (entries: Vec<Entry>)
    ensures
        entries@.map_values(|e: Entry| e.model()) == expanded_spec(
            *outcome,
            match steps {
                Some(st) => Some(st@),
                None => None,
            },
        ),
{
    match steps {
        None => {
            let mut entries: Vec<Entry> = Vec::new();
            entries.push(
                Entry {
                    classname: String::from_str("gaveldrop"),
                    name: outcome.name.clone(),
                    duration_ms: Some(outcome.duration_ms),
                    diffs: diffs_copied(&outcome.diffs),
                    failed: !outcome.passed,
                    tolerated: !outcome.passed && outcome.allow_fail,
                },
            );
            assert(entries@.map_values(|e: Entry| e.model()) =~= expanded_spec(*outcome, None));
            entries
        },
        Some(st) => {
            let classname = crate::text::concat("gaveldrop.", outcome.name.as_str());
            let whole = sifted(&outcome.diffs, "steps[", false);
            let whole_failed = whole.len() > 0;
            let mut entries: Vec<Entry> = Vec::new();
            entries.push(
                Entry {
                    classname: classname.clone(),
                    name: String::from_str("the run as a whole"),
                    duration_ms: Some(outcome.duration_ms),
                    diffs: whole,
                    failed: whole_failed,
                    tolerated: whole_failed && outcome.allow_fail,
                },
            );
            let ghost spec = expanded_spec(*outcome, Some(st@));
            let mut k: usize = 0;
            while k < st.len()
                invariant
                    k <= st@.len(),
                    classname@ == "gaveldrop."@ + outcome.name@,
                    spec == expanded_spec(*outcome, Some(st@)),
                    entries@.len() == k + 1,
                    forall|j: int|
                        0 <= j < k + 1 ==> (#[trigger] entries@[j]).model() == spec[j],
                decreases st@.len() - k,
            {
                let mut prefix = String::from_str("steps[");
                prefix.append(crate::text::decimal_string(k as u64).as_str());
                let diffs = sifted(&outcome.diffs, prefix.as_str(), true);
                let name = match &st[k] {
                    Some(given) => given.clone(),
                    None => {
                        let mut n = String::from_str("step ");
                        n.append(crate::text::decimal_string((k + 1) as u64).as_str());
                        n
                    },
                };
                let failed = diffs.len() > 0;
                let entry = Entry {
                    classname: classname.clone(),
                    name,
                    duration_ms: None,
                    diffs,
                    failed,
                    tolerated: failed && outcome.allow_fail,
                };
                assert(entry.model() == step_entry(*outcome, st@, k as int));
                assert(spec[k + 1] == step_entry(*outcome, st@, k as int));
                entries.push(entry);
                k = k + 1;
            }
            assert(entries@.map_values(|e: Entry| e.model()) =~= spec);
            entries
        },
    }
}

/// The `time` attribute of an entry, absent where nothing was measured.
pub open spec fn time_attr(duration_ms: Option<u64>) -> Seq<char> {
    match duration_ms {
        Some(ms) => " time=\""@ + seconds_text(ms as nat) + "\""@,
        None => Seq::empty(),
    }
}

/// The body of a failure: each diff worded as every renderer words it, one after another.
pub open spec fn failure_body(diffs: Seq<Diff>) -> Seq<char> {
    joined(diffs.map_values(|d: Diff| diff_text(d)), "\n"@)
}

/// One `<testcase>`, with a child only when there is something to say. A tolerated failure is
/// `<skipped>` rather than `<failure>`.
pub open spec fn entry_text(e: EntryModel) -> Seq<char> {
    let open = "    <testcase name=\""@ + xml_escaped(e.name) + "\" classname=\""@ + xml_escaped(
        e.classname,
    ) + "\""@ + time_attr(e.duration_ms);
    if !e.failed {
        open + "/>\n"@
    } else if e.tolerated {
        open + ">\n"@ + "      <skipped message=\"tolerated: "@ + xml_escaped(headline(e.diffs))
            + "\"/>\n"@ + "    </testcase>\n"@
    } else {
        open + ">\n"@ + "      <failure message=\""@ + xml_escaped(headline(e.diffs)) + "\">\n"@
            + xml_escaped(failure_body(e.diffs)) + "\n"@ + "      </failure>\n"@
            + "    </testcase>\n"@
    }
}

fn time_attribute(duration_ms: Option<u64>) -> (out: String)
    ensures
        out@ == time_attr(duration_ms),
{
    match duration_ms {
        Some(ms) => {
            let mut out = String::from_str(" time=\"");
            out.append(seconds(ms).as_str());
            out.append("\"");
            out
        },
        None => String::new(),
    }
}

fn described_all(diffs: &Vec<Diff>) -> (out: String)
    ensures
        out@ == failure_body(diffs@),
{
    let mut lines: Vec<String> = Vec::new();
    let mut i: usize = 0;
    while i < diffs.len()
        invariant
            i <= diffs.len(),
            crate::text::views(lines@) == diffs@.take(i as int).map_values(|d: Diff| diff_text(d)),
        decreases diffs.len() - i,
    {
        let d = &diffs[i];
        let mut line = String::from_str("    ");
        line.append(d.path.as_str());
        line.append("\n      expected  ");
        line.append(d.expected.as_str());
        line.append("\n      got       ");
        line.append(d.got.as_str());
        let ghost before = lines@;
        lines.push(line);
        proof {
            assert(crate::text::views(lines@) =~= crate::text::views(before).push(line@));
            assert(diffs@.take(i + 1).map_values(|d: Diff| diff_text(d)) =~= diffs@.take(
                i as int,
            ).map_values(|d: Diff| diff_text(d)).push(diff_text(diffs@[i as int])));
        }
        i = i + 1;
    }
    assert(diffs@.take(diffs.len() as int) =~= diffs@);
    crate::text::join(&lines, "\n")
}

fn entry_element(entry: &Entry) -> (out: String)
    ensures
        out@ == entry_text(entry.model()),
{
    let mut out = String::from_str("    <testcase name=\"");
    out.append(escaped(entry.name.as_str()).as_str());
    out.append("\" classname=\"");
    out.append(escaped(entry.classname.as_str()).as_str());
    out.append("\"");
    out.append(time_attribute(entry.duration_ms).as_str());
    let ghost open = out@;
    if !entry.failed {
        out.append("/>\n");
        return out;
    }
    out.append(">\n");
    let head = escaped(summarise(&entry.diffs).as_str());
    if entry.tolerated {
        out.append("      <skipped message=\"tolerated: ");
        out.append(head.as_str());
        out.append("\"/>\n");
    } else {
        out.append("      <failure message=\"");
        out.append(head.as_str());
        out.append("\">\n");
        out.append(escaped(described_all(&entry.diffs).as_str()).as_str());
        out.append("\n");
        out.append("      </failure>\n");
    }
    out.append("    </testcase>\n");
    out
}

/// The steps a case declared, as the map of declarations holds them.
pub open spec fn declared_steps(
    declared: Map<Seq<char>, Vec<Option<String>>>,
    name: Seq<char>,
) -> Option<Seq<Option<String>>> {
    if declared.contains_key(name) {
        Some(declared[name]@)
    } else {
        None
    }
}

/// Every entry of a run, case after case.
pub open spec fn all_entries(
    kept: Seq<Outcome>,
    declared: Map<Seq<char>, Vec<Option<String>>>,
) -> Seq<EntryModel>
    decreases kept.len(),
{
    if kept.len() == 0 {
        Seq::empty()
    } else {
        all_entries(kept.drop_last(), declared) + expanded_spec(
            kept.last(),
            declared_steps(declared, kept.last().name@),
        )
    }
}

/// How many entries failed without being tolerated.
pub open spec fn failures_in(entries: Seq<EntryModel>) -> nat
    decreases entries.len(),
{
    if entries.len() == 0 {
        0
    } else {
        failures_in(entries.drop_last()) + if entries.last().failed && !entries.last().tolerated {
            1nat
        } else {
            0nat
        }
    }
}

/// How many entries were tolerated failures.
pub open spec fn skips_in(entries: Seq<EntryModel>) -> nat
    decreases entries.len(),
{
    if entries.len() == 0 {
        0
    } else {
        skips_in(entries.drop_last()) + if entries.last().tolerated { 1nat } else { 0nat }
    }
}

/// The entries' elements, one after another.
pub open spec fn entries_text(entries: Seq<EntryModel>) -> Seq<char>
    decreases entries.len(),
{
    if entries.len() == 0 {
        Seq::empty()
    } else {
        entries_text(entries.drop_last()) + entry_text(entries.last())
    }
}

/// The whole document for the kept outcomes, timed by the run's summary.
pub open spec fn document(
    kept: Seq<Outcome>,
    declared: Map<Seq<char>, Vec<Option<String>>>,
    run: Seq<Outcome>,
) -> Seq<char> {
    let entries = all_entries(kept, declared);
    let tests = decimal(entries.len());
    let failures = decimal(failures_in(entries));
    let skipped = decimal(skips_in(entries));
    "<?xml version=\"1.0\" encoding=\"UTF-8\"?>\n"@ + "<testsuites tests=\""@ + tests
        + "\" failures=\""@ + failures + "\" skipped=\""@ + skipped + "\">\n"@
        + "  <testsuite name=\"gaveldrop\" tests=\""@ + tests + "\" failures=\""@ + failures
        + "\" skipped=\""@ + skipped + "\" time=\""@ + seconds_text(
        summary_of(run).duration_ms as nat,
    ) + "\">\n"@ + entries_text(entries) + "  </testsuite>\n"@ + "</testsuites>\n"@
}

/// Failures and skips add up over entries put end to end.
proof fn lemma_counts_add(a: Seq<EntryModel>, b: Seq<EntryModel>)
    ensures
        failures_in(a + b) == failures_in(a) + failures_in(b),
        skips_in(a + b) == skips_in(a) + skips_in(b),
    decreases b.len(),
{
    if b.len() == 0 {
        assert(a + b =~= a);
    } else {
        assert((a + b).drop_last() =~= a + b.drop_last());
        assert((a + b).last() == b.last());
        lemma_counts_add(a, b.drop_last());
    }
}

/// Entries none of which is an untolerated failure count no failure.
proof fn lemma_no_failures(e: Seq<EntryModel>)
    requires
        forall|i: int| 0 <= i < e.len() ==> (#[trigger] e[i]).tolerated == e[i].failed,
    ensures
        failures_in(e) == 0,
    decreases e.len(),
{
    if e.len() > 0 {
        assert(e.last() == e[e.len() - 1]);
        lemma_no_failures(e.drop_last());
    }
}

/// Entries none of which is tolerated count no skip.
proof fn lemma_no_skips(e: Seq<EntryModel>)
    requires
        forall|i: int| 0 <= i < e.len() ==> !(#[trigger] e[i]).tolerated,
    ensures
        skips_in(e) == 0,
    decreases e.len(),
{
    if e.len() > 0 {
        assert(e.last() == e[e.len() - 1]);
        lemma_no_skips(e.drop_last());
    }
}

/// A declared known failure never turns the report red: every entry an `allow_fail` outcome
/// contributes — the case itself, or the run as a whole and each of its exchanges — is tolerated
/// exactly when it failed, so the outcome adds nothing to the failures; and an outcome that is
/// not `allow_fail` has none of its entries tolerated, so it adds nothing to the skips.
pub proof fn law_a_known_failure_is_skipped_not_failed(o: Outcome, steps: Option<Seq<Option<String>>>)
    ensures
        o.allow_fail ==> (forall|i: int| 0 <= i < expanded_spec(o, steps).len() ==> (#[trigger] expanded_spec(
            o,
            steps,
        )[i]).tolerated == expanded_spec(o, steps)[i].failed),
        o.allow_fail ==> failures_in(expanded_spec(o, steps)) == 0,
        !o.allow_fail ==> (forall|i: int| 0 <= i < expanded_spec(o, steps).len() ==> !(#[trigger] expanded_spec(
            o,
            steps,
        )[i]).tolerated),
        !o.allow_fail ==> skips_in(expanded_spec(o, steps)) == 0,
{
    let e = expanded_spec(o, steps);
    match steps {
        None => {},
        Some(st) => {
            assert forall|i: int| 0 < i < e.len() implies #[trigger] e[i] == step_entry(o, st, i - 1) by {}
        },
    }
    if o.allow_fail {
        lemma_no_failures(e);
    } else {
        lemma_no_skips(e);
    }
}

/// Over a whole run, only the outcomes not declared `allow_fail` can count as failures: a run of
/// known failures writes a report with no failure in it.
pub proof fn law_known_failures_keep_the_report_green(
    kept: Seq<Outcome>,
    declared: Map<Seq<char>, Vec<Option<String>>>,
)
    requires
        forall|i: int| 0 <= i < kept.len() ==> (#[trigger] kept[i]).allow_fail,
    ensures
        failures_in(all_entries(kept, declared)) == 0,
    decreases kept.len(),
{
    if kept.len() > 0 {
        assert(kept.last() == kept[kept.len() - 1]);
        law_known_failures_keep_the_report_green(kept.drop_last(), declared);
        let last = kept.last();
        law_a_known_failure_is_skipped_not_failed(last, declared_steps(declared, last.name@));
        lemma_counts_add(
            all_entries(kept.drop_last(), declared),
            expanded_spec(last, declared_steps(declared, last.name@)),
        );
    }
}

/// Collects outcomes and writes JUnit XML once the run is over.
pub struct Junit {
    out: String,
    outcomes: Vec<Outcome>,
    declared: StrMap<Vec<Option<String>>>,
}

impl Junit {
    /// What this renderer has written so far.
    pub closed spec fn written(&self) -> Seq<char> {
        self.out@
    }

    /// The outcomes it has been handed, in order.
    pub closed spec fn kept(&self) -> Seq<Outcome> {
        self.outcomes@
    }

    /// The exchanges each case declared.
    pub closed spec fn declared(&self) -> Map<Seq<char>, Vec<Option<String>>> {
        self.declared@
    }

    /// A renderer with nothing written and nothing kept.
    pub fn new() -> (j: Junit)
        ensures
            j.written().len() == 0,
            j.kept().len() == 0,
            j.declared() == Map::<Seq<char>, Vec<Option<String>>>::empty(),
    {
        Junit { out: String::new(), outcomes: Vec::new(), declared: StrMap::new() }
    }

    /// Everything written so far.
    pub fn text(&self) -> (s: &str)
        ensures
            s@ == self.written(),
    {
        self.out.as_str()
    }

    /// Hands over what was written since the last call, leaving the buffer empty.
    pub fn drain(&mut self) -> (s: String)
        ensures
            s@ == old(self).written(),
            final(self).written().len() == 0,
            final(self).kept() == old(self).kept(),
            final(self).declared() == old(self).declared(),
    {
        let mut s = String::new();
        std::mem::swap(&mut s, &mut self.out);
        s
    }
}

fn steps_copied(names: &[Option<String>]) -> (out: Vec<Option<String>>)
    ensures
        out@ == names@,
{
    let mut out: Vec<Option<String>> = Vec::new();
    let mut i: usize = 0;
    while i < names.len()
        invariant
            i <= names@.len(),
            out@ == names@.take(i as int),
        decreases names@.len() - i,
    {
        let copy = match &names[i] {
            Some(n) => Some(n.clone()),
            None => None,
        };
        out.push(copy);
        assert(out@ =~= names@.take(i + 1));
        i = i + 1;
    }
    assert(out@ =~= names@);
    out
}

impl Sink for Junit {
    fn case_finished(&mut self, outcome: &Outcome)
        ensures
            final(self).written() == old(self).written(),
            final(self).declared() == old(self).declared(),
            final(self).kept().len() == old(self).kept().len() + 1,
            final(self).kept().drop_last() == old(self).kept(),
            alike(final(self).kept().last(), *outcome),
    {
        self.outcomes.push(outcome.copied());
    }

    fn declares_steps(&mut self, case: &str, names: &[Option<String>])
        ensures
            final(self).written() == old(self).written(),
            final(self).kept() == old(self).kept(),
            final(self).declared().dom() == old(self).declared().dom().insert(case@),
            final(self).declared()[case@]@ == names@,
            forall|k: Seq<char>|
                k != case@ && old(self).declared().contains_key(k) ==> final(self).declared()[k]
                    == old(self).declared()[k],
    {
        self.declared.insert(String::from_str(case), steps_copied(names));
    }

    fn finish(&mut self, report: &Report)
        ensures
            final(self).written() == old(self).written() + document(
                old(self).kept(),
                old(self).declared(),
                report.outcomes@,
            ),
            final(self).kept() == old(self).kept(),
            final(self).declared() == old(self).declared(),
    {
        let mut entries: Vec<Entry> = Vec::new();
        let mut i: usize = 0;
        while i < self.outcomes.len()
            invariant
                i <= self.outcomes@.len(),
                entries@.map_values(|e: Entry| e.model()) == all_entries(
                    self.outcomes@.take(i as int),
                    self.declared@,
                ),
            decreases self.outcomes@.len() - i,
        {
            let o = &self.outcomes[i];
            let steps = self.declared.get(o.name.as_str());
            let mut more = expanded(o, steps);
            let ghost before = entries@;
            let ghost added = more@;
            entries.append(&mut more);
            proof {
                assert(self.outcomes@.take(i + 1).drop_last() =~= self.outcomes@.take(i as int));
                assert(entries@.map_values(|e: Entry| e.model()) =~= before.map_values(
                    |e: Entry| e.model(),
                ) + added.map_values(|e: Entry| e.model()));
            }
            i = i + 1;
        }
        assert(self.outcomes@.take(self.outcomes@.len() as int) =~= self.outcomes@);
        let ghost models = entries@.map_values(|e: Entry| e.model());
        let mut failures: usize = 0;
        let mut skipped: usize = 0;
        let mut body = String::new();
        let mut k: usize = 0;
        while k < entries.len()
            invariant
                k <= entries@.len(),
                models == entries@.map_values(|e: Entry| e.model()),
                failures == failures_in(models.take(k as int)),
                skipped == skips_in(models.take(k as int)),
                failures + skipped <= k,
                body@ == entries_text(models.take(k as int)),
            decreases entries@.len() - k,
        {
            let e = &entries[k];
            proof {
                assert(models.take(k + 1).drop_last() =~= models.take(k as int));
                assert(models[k as int] == e.model());
            }
            if e.failed && !e.tolerated {
                failures = failures + 1;
            }
            if e.tolerated {
                skipped = skipped + 1;
            }
            proof {
                assert(!(e.failed && !e.tolerated && e.tolerated));
            }
            body.append(entry_element(e).as_str());
            k = k + 1;
        }
        assert(models.take(models.len() as int) =~= models);
        let sum = report.summary();
        let tests = crate::text::decimal_string(entries.len() as u64);
        let fails = crate::text::decimal_string(failures as u64);
        let skips = crate::text::decimal_string(skipped as u64);
        let mut doc = String::from_str("<?xml version=\"1.0\" encoding=\"UTF-8\"?>\n");
        doc.append("<testsuites tests=\"");
        doc.append(tests.as_str());
        doc.append("\" failures=\"");
        doc.append(fails.as_str());
        doc.append("\" skipped=\"");
        doc.append(skips.as_str());
        doc.append("\">\n");
        doc.append("  <testsuite name=\"gaveldrop\" tests=\"");
        doc.append(tests.as_str());
        doc.append("\" failures=\"");
        doc.append(fails.as_str());
        doc.append("\" skipped=\"");
        doc.append(skips.as_str());
        doc.append("\" time=\"");
        doc.append(seconds(sum.duration_ms).as_str());
        doc.append("\">\n");
        doc.append(body.as_str());
        doc.append("  </testsuite>\n");
        doc.append("</testsuites>\n");
        self.out.append(doc.as_str());
    }
}

} // verus!
