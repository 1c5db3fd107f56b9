//! The human-readable report as one self-contained page.
//!
//! Self-contained is the requirement that shapes it: no external stylesheet, no script, no remote
//! font. A report is read from a CI artefact, often with no network.

use vstd::prelude::*;
use crate::fake::journal::Call;
use crate::iso::snapshot::FileEffect;
use crate::observations::Observations;
use crate::outcome::{Diff, Outcome};
use crate::report::{Report, Sink, summary_of};
use crate::report::rank::{lemma_insert_at, lemma_ranked_contents, law_ranking_is_sorted, ranked_by, strict};
use crate::strmap::{StrMap, ascending, keys_of, lemma_map_of_ascending};
use crate::text::{decimal, joined, signed_decimal, views};

verus! {

/// The whole stylesheet, inline.
pub const STYLE: &'static str = "body{font:14px/1.5 ui-monospace,monospace;margin:2rem auto;max-width:60rem;padding:0 1rem}h1{font-size:1.2rem;margin:0 0 .25rem}.summary{color:#555;margin:0 0 1.5rem}table{border-collapse:collapse;width:100%}td{border-top:1px solid #e5e5e5;padding:.5rem .4rem;vertical-align:top}.mark{width:3.5rem;font-weight:700}.score{width:4rem;text-align:right;color:#555}tr.ok .mark{color:#1a7f37}tr.warn .mark{color:#9a6700}tr.fail .mark{color:#cf222e}.diff{margin:.4rem 0 0 .5rem;border-left:2px solid #e5e5e5;padding-left:.6rem}.diff code{display:block;color:#0969da}.diff span{display:block;color:#555;white-space:pre-wrap;word-break:break-word}.aside{margin:.4rem 0 0 .5rem;color:#777;font-style:italic}details{margin:.4rem 0 0 .5rem}summary{cursor:pointer;color:#555;font-size:.9em}summary:hover{color:#0969da}.obs{margin:.3rem 0 0 .6rem;border-left:2px solid #e5e5e5;padding-left:.6rem}.obs code{display:block;color:#0969da;margin-top:.3rem}.obs span{display:block;color:#333}.obs pre{margin:.1rem 0 0;white-space:pre-wrap;word-break:break-word;color:#333;font:inherit}";

/// What one character becomes in the page.
pub open spec fn html_char(c: char) -> Seq<char> {
    if c == '&' {
        "&amp;"@
    } else if c == '<' {
        "&lt;"@
    } else if c == '>' {
        "&gt;"@
    } else if c == '"' {
        "&quot;"@
    } else if c == '\'' {
        "&#39;"@
    } else {
        seq![c]
    }
}

/// Text that came from the subject under test, made inert in markup.
pub open spec fn html_escaped(text: Seq<char>) -> Seq<char>
    decreases text.len(),
{
    if text.len() == 0 {
        Seq::empty()
    } else {
        html_escaped(text.drop_last()) + html_char(text.last())
    }
}

/// Nothing the subject printed can open or close markup: its escaped form holds no `<`, `>`, `"`
/// or `'`.
pub proof fn law_escaped_is_inert(text: Seq<char>)
    ensures
        forall|i: int|
            0 <= i < html_escaped(text).len() ==> #[trigger] html_escaped(text)[i] != '<' && html_escaped(
                text,
            )[i] != '>' && html_escaped(text)[i] != '"' && html_escaped(text)[i] != '\'',
    decreases text.len(),
{
    reveal_strlit("&amp;");
    reveal_strlit("&lt;");
    reveal_strlit("&gt;");
    reveal_strlit("&quot;");
    reveal_strlit("&#39;");
    if text.len() > 0 {
        law_escaped_is_inert(text.drop_last());
        let head = html_escaped(text.drop_last());
        let tail = html_char(text.last());
        assert forall|i: int| 0 <= i < html_escaped(text).len() implies #[trigger] html_escaped(text)[i] != '<'
            && html_escaped(text)[i] != '>' && html_escaped(text)[i] != '"' && html_escaped(text)[i] != '\'' by {
            if i < head.len() {
                assert(html_escaped(text)[i] == head[i]);
            } else {
                assert(html_escaped(text)[i] == tail[i - head.len()]);
            }
        }
    }
}

/// Escapes text that came from the subject under test: the subject is, by definition, the thing
/// whose behaviour is not yet trusted.
pub fn escape(text: &str) -> (out: String)
    ensures
        out@ == html_escaped(text@),
{
    let cs = crate::text::chars_of(text);
    let mut out = String::new();
    let mut i: usize = 0;
    while i < cs.len()
        invariant
            i <= cs.len(),
            cs@ == text@,
            out@ == html_escaped(cs@.take(i as int)),
        decreases cs.len() - i,
    {
        let c = cs[i];
        if c == '&' {
            out.append("&amp;");
        } else if c == '<' {
            out.append("&lt;");
        } else if c == '>' {
            out.append("&gt;");
        } else if c == '"' {
            out.append("&quot;");
        } else if c == '\'' {
            out.append("&#39;");
        } else {
            crate::text::push_char(&mut out, c);
        }
        assert(cs@.take(i + 1).drop_last() =~= cs@.take(i as int));
        i = i + 1;
    }
    assert(cs@.take(cs.len() as int) =~= cs@);
    out
}

/// How many bytes UTF-8 takes for `c`.
pub open spec fn utf8_width(c: char) -> nat {
    if (c as u32) < 0x80 {
        1
    } else if (c as u32) < 0x800 {
        2
    } else if (c as u32) < 0x10000 {
        3
    } else {
        4
    }
}

/// How many bytes UTF-8 takes for `text`.
pub open spec fn utf8_len(text: Seq<char>) -> nat
    decreases text.len(),
{
    if text.len() == 0 {
        0
    } else {
        utf8_len(text.drop_last()) + utf8_width(text.last())
    }
}

/// How many characters of a value a page shows.
pub open spec fn room() -> nat {
    4000
}

/// As much of a value as belongs in a page: the whole of it, or its first characters followed by
/// how many bytes it held in all.
pub open spec fn capped_text(text: Seq<char>) -> Seq<char> {
    if text.len() <= room() {
        text
    } else {
        text.take(room() as int) + "\n… ("@ + decimal(utf8_len(text)) + " bytes in all)"@
    }
}

fn capped(text: &str) -> (out: String)
    ensures
        out@ == capped_text(text@),
{
    let cs = crate::text::chars_of(text);
    if cs.len() <= 4000 {
        return String::from_str(text);
    }
    let mut head: Vec<char> = Vec::new();
    let mut bytes: u128 = 0;
    let mut i: usize = 0;
    while i < cs.len()
        invariant
            i <= cs.len(),
            cs@ == text@,
            cs.len() > 4000,
            head@ == cs@.take(if i < 4000 { i as int } else { 4000 }),
            bytes == utf8_len(cs@.take(i as int)),
            bytes <= 4 * i,
        decreases cs.len() - i,
    {
        let c = cs[i];
        let code = c as u32;
        let width: u128 = if code < 0x80 {
            1
        } else if code < 0x800 {
            2
        } else if code < 0x10000 {
            3
        } else {
            4
        };
        if i < 4000 {
            head.push(c);
            assert(cs@.take(i + 1) =~= cs@.take(i as int).push(c));
        }
        assert(cs@.take(i + 1).drop_last() =~= cs@.take(i as int));
        bytes = bytes + width;
        i = i + 1;
    }
    assert(cs@.take(cs.len() as int) =~= cs@);
    let mut out = crate::text::string_of(&head);
    out.append("\n… (");
    out.append(crate::text::wide_decimal_string(bytes).as_str());
    out.append(" bytes in all)");
    out
}

/// One labelled value.
pub open spec fn field_text(label: Seq<char>, value: Seq<char>) -> Seq<char> {
    "<code>"@ + label + "</code><span>"@ + html_escaped(capped_text(value)) + "</span>"@
}

/// One stream, kept as written so its line breaks survive.
pub open spec fn stream_text(label: Seq<char>, text: Seq<char>) -> Seq<char> {
    "<code>"@ + label + "</code><pre>"@ + html_escaped(capped_text(text)) + "</pre>"@
}

fn field(label: &str, value: &str) -> (out: String)
    ensures
        out@ == field_text(label@, value@),
{
    let mut out = String::from_str("<code>");
    out.append(label);
    out.append("</code><span>");
    out.append(escape(capped(value).as_str()).as_str());
    out.append("</span>");
    out
}

fn stream(label: &str, text: &str) -> (out: String)
    ensures
        out@ == stream_text(label@, text@),
{
    let mut out = String::from_str("<code>");
    out.append(label);
    out.append("</code><pre>");
    out.append(escape(capped(text).as_str()).as_str());
    out.append("</pre>");
    out
}

/// How many of `calls` went to `bin`.
pub open spec fn count_bin(calls: Seq<Call>, bin: Seq<char>) -> nat
    decreases calls.len(),
{
    if calls.len() == 0 {
        0
    } else {
        count_bin(calls.drop_last(), bin) + if calls.last().bin@ == bin { 1nat } else { 0nat }
    }
}

/// `bins` is every binary `calls` went to, each once, in ascending order.
pub open spec fn bins_in_order(calls: Seq<Call>, bins: Seq<Seq<char>>) -> bool {
    &&& ascending(bins)
    &&& forall|b: Seq<char>|
        bins.contains(b) <==> exists|i: int| 0 <= i < calls.len() && #[trigger] calls[i].bin@ == b
}

/// Which binaries were called, and how often, in the order `bins` lists them.
pub open spec fn tally_text(calls: Seq<Call>, bins: Seq<Seq<char>>) -> Seq<char> {
    joined(bins.map_values(|b: Seq<char>| b + " ×"@ + decimal(count_bin(calls, b))), ", "@)
}

proof fn lemma_count_bounded(calls: Seq<Call>, bin: Seq<char>)
    ensures
        count_bin(calls, bin) <= calls.len(),
    decreases calls.len(),
{
    if calls.len() > 0 {
        lemma_count_bounded(calls.drop_last(), bin);
    }
}

/// Which binaries were called, and how often, each binary once and in ascending order.
fn counted(calls: &Vec<Call>) -> (out: String)
    ensures
        exists|bins: Seq<Seq<char>>| bins_in_order(calls@, bins) && out@ == tally_text(calls@, bins),
{
    let mut tally: StrMap<usize> = StrMap::new();
    let mut i: usize = 0;
    while i < calls.len()
        invariant
            i <= calls.len(),
            forall|b: Seq<char>|
                tally@.contains_key(b) <==> exists|j: int| 0 <= j < i && #[trigger] calls@[j].bin@ == b,
            forall|b: Seq<char>|
                tally@.contains_key(b) ==> tally@[b] == count_bin(calls@.take(i as int), b),
        decreases calls.len() - i,
    {
        let bin = &calls[i].bin;
        let ghost prefix = calls@.take(i as int);
        proof {
            assert(calls@.take(i + 1).drop_last() =~= prefix);
            lemma_count_bounded(prefix, bin@);
        }
        let now: usize = match tally.get(bin.as_str()) {
            Some(c) => *c,
            None => 0,
        };
        proof {
            if !tally@.contains_key(bin@) {
                assert forall|j: int| 0 <= j < i implies calls@[j].bin@ != bin@ by {
                }
                assert(count_bin(prefix, bin@) == 0) by {
                    lemma_count_zero(prefix, bin@);
                }
            }
        }
        tally.insert(bin.clone(), now + 1);
        proof {
            assert forall|b: Seq<char>|
                tally@.contains_key(b) <==> exists|j: int| 0 <= j < i + 1 && #[trigger] calls@[j].bin@ == b by {
                if b == bin@ {
                    assert(calls@[i as int].bin@ == b);
                }
            }
        }
        i = i + 1;
    }
    assert(calls@.take(calls.len() as int) =~= calls@);
    let pairs = tally.pairs_vec();
    proof {
        tally.lemma_view();
        lemma_map_of_ascending(tally.pairs());
    }
    let ghost bins = keys_of(tally.pairs());
    let mut parts: Vec<String> = Vec::new();
    let mut k: usize = 0;
    while k < pairs.len()
        invariant
            k <= pairs@.len(),
            pairs@ == tally.pairs(),
            bins == keys_of(tally.pairs()),
            forall|j: int|
                0 <= j < pairs@.len() ==> tally@.contains_key(#[trigger] pairs@[j].0@) && tally@[pairs@[j].0@]
                    == pairs@[j].1,
            forall|b: Seq<char>| tally@.contains_key(b) ==> tally@[b] == count_bin(calls@, b),
            views(parts@) == bins.take(k as int).map_values(
                |b: Seq<char>| b + " ×"@ + decimal(count_bin(calls@, b)),
            ),
        decreases pairs@.len() - k,
    {
        let mut part = pairs[k].0.clone();
        part.append(" ×");
        part.append(crate::text::decimal_string(pairs[k].1 as u64).as_str());
        let ghost before = parts@;
        parts.push(part);
        proof {
            assert(bins[k as int] == pairs@[k as int].0@);
            assert(views(parts@) =~= views(before).push(part@));
            assert(bins.take(k + 1).map_values(|b: Seq<char>| b + " ×"@ + decimal(count_bin(calls@, b)))
                =~= bins.take(k as int).map_values(
                |b: Seq<char>| b + " ×"@ + decimal(count_bin(calls@, b)),
            ).push(bins[k as int] + " ×"@ + decimal(count_bin(calls@, bins[k as int]))));
        }
        k = k + 1;
    }
    assert(bins.take(bins.len() as int) =~= bins);
    let out = crate::text::join(&parts, ", ");
    proof {
        assert(bins_in_order(calls@, bins)) by {
            assert forall|b: Seq<char>|
                bins.contains(b) <==> exists|i: int| 0 <= i < calls@.len() && #[trigger] calls@[i].bin@ == b by {
                assert(tally@.contains_key(b) <==> bins.contains(b));
            }
        }
    }
    out
}

proof fn lemma_count_zero(calls: Seq<Call>, bin: Seq<char>)
    requires
        forall|j: int| 0 <= j < calls.len() ==> calls[j].bin@ != bin,
    ensures
        count_bin(calls, bin) == 0,
    decreases calls.len(),
{
    if calls.len() > 0 {
        lemma_count_zero(calls.drop_last(), bin);
    }
}

/// One touched file as the fold lists it.
pub open spec fn file_text(f: FileEffect) -> Seq<char> {
    f.path@ + " ("@ + decimal(f.size as nat) + " bytes)"@
}

/// What the subject actually did, folded shut, given the order `bins` lists its calls in.
pub open spec fn run_text(obs: Observations, bins: Seq<Seq<char>>) -> Seq<char> {
    let parts = field_text("exit"@, signed_decimal(obs.exit as int)) + (if obs.stdout@.len() > 0 {
        stream_text("stdout"@, obs.stdout@)
    } else {
        Seq::empty()
    }) + (if obs.stderr@.len() > 0 {
        stream_text("stderr"@, obs.stderr@)
    } else {
        Seq::empty()
    }) + (if obs.calls@.len() > 0 {
        field_text("calls"@, tally_text(obs.calls@, bins))
    } else {
        Seq::empty()
    }) + (if obs.files@.len() > 0 {
        field_text("files"@, joined(obs.files@.map_values(|f: FileEffect| file_text(f)), ", "@))
    } else {
        Seq::empty()
    }) + match obs.status {
        Some(s) => field_text("status"@, decimal(s as nat)),
        None => Seq::empty(),
    };
    "<details><summary>what it did</summary><div class=\"obs\">"@ + parts + "</div></details>"@
}

/// `text` is the fold of `obs`: its calls listed each binary once, in ascending order.
pub open spec fn is_run_text(obs: Observations, text: Seq<char>) -> bool {
    exists|bins: Seq<Seq<char>>| bins_in_order(obs.calls@, bins) && text == run_text(obs, bins)
}

fn files_listed(files: &Vec<FileEffect>) -> (out: String)
    ensures
        out@ == joined(files@.map_values(|f: FileEffect| file_text(f)), ", "@),
{
    let mut parts: Vec<String> = Vec::new();
    let mut i: usize = 0;
    while i < files.len()
        invariant
            i <= files.len(),
            views(parts@) == files@.take(i as int).map_values(|f: FileEffect| file_text(f)),
        decreases files.len() - i,
    {
        let f = &files[i];
        let mut part = f.path.clone();
        part.append(" (");
        part.append(crate::text::decimal_string(f.size).as_str());
        part.append(" bytes)");
        let ghost before = parts@;
        parts.push(part);
        proof {
            assert(views(parts@) =~= views(before).push(part@));
            assert(files@.take(i + 1).map_values(|f: FileEffect| file_text(f)) =~= files@.take(
                i as int,
            ).map_values(|f: FileEffect| file_text(f)).push(file_text(files@[i as int])));
        }
        i = i + 1;
    }
    assert(files@.take(files.len() as int) =~= files@);
    crate::text::join(&parts, ", ")
}

/// What the subject actually did, folded shut: `<details>` rather than a script.
pub fn run_detail(obs: &Observations) -> (out: String)
    ensures
        is_run_text(*obs, out@),
{
    let tally = counted(&obs.calls);
    let ghost bins = choose|bins: Seq<Seq<char>>|
        bins_in_order(obs.calls@, bins) && tally@ == tally_text(obs.calls@, bins);
    let exit = crate::text::signed_decimal_string(obs.exit as i64);
    let mut parts = field("exit", exit.as_str());
    if !obs.stdout.as_str().is_empty() {
        parts.append(stream("stdout", obs.stdout.as_str()).as_str());
    }
    if !obs.stderr.as_str().is_empty() {
        parts.append(stream("stderr", obs.stderr.as_str()).as_str());
    }
    if obs.calls.len() > 0 {
        parts.append(field("calls", tally.as_str()).as_str());
    }
    if obs.files.len() > 0 {
        parts.append(field("files", files_listed(&obs.files).as_str()).as_str());
    }
    match obs.status {
        Some(s) => {
            parts.append(field("status", crate::text::decimal_string(s as u64).as_str()).as_str());
        },
        None => {},
    }
    let mut out = String::from_str("<details><summary>what it did</summary><div class=\"obs\">");
    out.append(parts.as_str());
    out.append("</div></details>");
    proof {
        assert(out@ =~= run_text(*obs, bins));
    }
    out
}

/// One failed assertion.
pub open spec fn diff_html(d: Diff) -> Seq<char> {
    "<div class=\"diff\"><code>"@ + html_escaped(d.path@) + "</code><span>expected "@ + html_escaped(
        d.expected@,
    ) + "</span><span>got "@ + html_escaped(d.got@) + "</span></div>"@
}

fn diff_row(d: &Diff) -> (out: String)
    ensures
        out@ == diff_html(*d),
{
    let mut out = String::from_str("<div class=\"diff\"><code>");
    out.append(escape(d.path.as_str()).as_str());
    out.append("</code><span>expected ");
    out.append(escape(d.expected.as_str()).as_str());
    out.append("</span><span>got ");
    out.append(escape(d.got.as_str()).as_str());
    out.append("</span></div>");
    out
}

/// The row's class, which colours its mark.
pub open spec fn class_of(o: Outcome) -> Seq<char> {
    if o.passed {
        "ok"@
    } else if o.allow_fail {
        "warn"@
    } else {
        "fail"@
    }
}

/// The row's mark.
pub open spec fn mark_of(o: Outcome) -> Seq<char> {
    if o.passed {
        "ok"@
    } else if o.allow_fail {
        "warn"@
    } else {
        "FAIL"@
    }
}

/// Everything under a case's name: its failures, what else it did, and its run one click away.
pub open spec fn detail_html(o: Outcome, run: Option<Seq<char>>) -> Seq<char> {
    joined(o.diffs@.map_values(|d: Diff| diff_html(d)), Seq::empty()) + (if o.unexpected_calls@.len()
        > 0 {
        "<div class=\"diff\"><code>unexpected calls</code><span>"@ + html_escaped(
            joined(views(o.unexpected_calls@), ", "@),
        ) + "</span></div>"@
    } else {
        Seq::empty()
    }) + (if o.unmentioned_files@.len() > 0 {
        "<div class=\"aside\">also written, not asserted: "@ + html_escaped(
            joined(views(o.unmentioned_files@), ", "@),
        ) + "</div>"@
    } else {
        Seq::empty()
    }) + match run {
        Some(r) => r,
        None => Seq::empty(),
    }
}

/// One table row.
pub open spec fn row_html(o: Outcome, run: Option<Seq<char>>) -> Seq<char> {
    "<tr class=\""@ + class_of(o) + "\"><td class=\"mark\">"@ + mark_of(o) + "</td><td>"@
        + html_escaped(o.name@) + "<div>"@ + detail_html(o, run) + "</div></td><td class=\"score\">"@
        + decimal(if o.passed { o.weight as nat } else { 0 }) + "/"@ + decimal(o.weight as nat)
        + "</td></tr>"@
}

fn diff_rows(diffs: &Vec<Diff>) -> (out: String)
    ensures
        out@ == joined(diffs@.map_values(|d: Diff| diff_html(d)), Seq::empty()),
{
    let mut parts: Vec<String> = Vec::new();
    let mut i: usize = 0;
    while i < diffs.len()
        invariant
            i <= diffs.len(),
            views(parts@) == diffs@.take(i as int).map_values(|d: Diff| diff_html(d)),
        decreases diffs.len() - i,
    {
        let part = diff_row(&diffs[i]);
        let ghost before = parts@;
        parts.push(part);
        proof {
            assert(views(parts@) =~= views(before).push(part@));
            assert(diffs@.take(i + 1).map_values(|d: Diff| diff_html(d)) =~= diffs@.take(
                i as int,
            ).map_values(|d: Diff| diff_html(d)).push(diff_html(diffs@[i as int])));
        }
        i = i + 1;
    }
    assert(diffs@.take(diffs.len() as int) =~= diffs@);
    proof {
        reveal_strlit("");
        assert(""@ =~= Seq::<char>::empty());
    }
    crate::text::join(&parts, "")
}

fn row(outcome: &Outcome, run: Option<&String>) -> (out: String)
    ensures
        out@ == row_html(
            *outcome,
            match run {
                Some(r) => Some(r@),
                None => None,
            },
        ),
{
    let mut detail = diff_rows(&outcome.diffs);
    if outcome.unexpected_calls.len() > 0 {
        detail.append("<div class=\"diff\"><code>unexpected calls</code><span>");
        detail.append(escape(crate::text::join(&outcome.unexpected_calls, ", ").as_str()).as_str());
        detail.append("</span></div>");
    }
    if outcome.unmentioned_files.len() > 0 {
        detail.append("<div class=\"aside\">also written, not asserted: ");
        detail.append(escape(crate::text::join(&outcome.unmentioned_files, ", ").as_str()).as_str());
        detail.append("</div>");
    }
    match run {
        Some(r) => {
            detail.append(r.as_str());
        },
        None => {},
    }
    let class = if outcome.passed {
        "ok"
    } else if outcome.allow_fail {
        "warn"
    } else {
        "fail"
    };
    let mark = if outcome.passed {
        "ok"
    } else if outcome.allow_fail {
        "warn"
    } else {
        "FAIL"
    };
    let scored: u32 = if outcome.passed { outcome.weight } else { 0 };
    let mut out = String::from_str("<tr class=\"");
    out.append(class);
    out.append("\"><td class=\"mark\">");
    out.append(mark);
    out.append("</td><td>");
    out.append(escape(outcome.name.as_str()).as_str());
    out.append("<div>");
    out.append(detail.as_str());
    out.append("</div></td><td class=\"score\">");
    out.append(crate::text::decimal_string(scored as u64).as_str());
    out.append("/");
    out.append(crate::text::decimal_string(outcome.weight as u64).as_str());
    out.append("</td></tr>");
    proof {
        let r = match run {
            Some(r) => Some(r@),
            None => None,
        };
        assert(detail@ =~= detail_html(*outcome, r));
    }
    out
}

/// How urgent one outcome is: a real failure, then a tolerated one, then a pass.
pub open spec fn urgency(o: Outcome) -> nat {
    if !o.passed && !o.allow_fail {
        0
    } else if !o.passed {
        1
    } else {
        2
    }
}

/// Whether position `a` of `s` goes strictly before position `b`: more urgent, or as urgent and
/// heavier.
pub open spec fn sooner(s: Seq<Outcome>) -> spec_fn(int, int) -> bool {
    |a: int, b: int|
        urgency(s[a]) < urgency(s[b]) || (urgency(s[a]) == urgency(s[b]) && s[a].weight > s[b].weight)
}

fn urgency_of(o: &Outcome) -> (u: u8)
    ensures
        u as nat == urgency(*o),
{
    if !o.passed && !o.allow_fail {
        0
    } else if !o.passed {
        1
    } else {
        2
    }
}

fn goes_before(a: &Outcome, b: &Outcome) -> (r: bool)
    ensures
        r == (urgency(*a) < urgency(*b) || (urgency(*a) == urgency(*b) && a.weight > b.weight)),
{
    let ua = urgency_of(a);
    let ub = urgency_of(b);
    ua < ub || (ua == ub && a.weight > b.weight)
}

/// The positions of the outcomes, what needs attention first; equal keys keep their order.
fn ordered(outcomes: &Vec<Outcome>) -> (order: Vec<usize>)
    ensures
        order@.map_values(|k: usize| k as int) == ranked_by(sooner(outcomes@), outcomes@.len() as int),
{
    let ghost p = sooner(outcomes@);
    let mut order: Vec<usize> = Vec::new();
    let mut i: usize = 0;
    while i < outcomes.len()
        invariant
            i <= outcomes.len(),
            p == sooner(outcomes@),
            order@.map_values(|k: usize| k as int) == ranked_by(p, i as int),
            forall|j: int| 0 <= j < order@.len() ==> #[trigger] order@[j] < i,
            order@.len() == i,
        decreases outcomes.len() - i,
    {
        let mut q: usize = 0;
        while q < order.len() && !goes_before(&outcomes[i], &outcomes[order[q]])
            invariant
                q <= order@.len(),
                i < outcomes.len(),
                p == sooner(outcomes@),
                order@.len() == i,
                forall|j: int| 0 <= j < order@.len() ==> #[trigger] order@[j] < i,
                forall|j: int| 0 <= j < q ==> !p(i as int, #[trigger] order@[j] as int),
            decreases order@.len() - q,
        {
            q = q + 1;
        }
        let ghost before = order@.map_values(|k: usize| k as int);
        let ghost raw = order@;
        proof {
            assert forall|j: int| 0 <= j < q implies !p(i as int, #[trigger] before[j]) by {
                assert(before[j] == order@[j] as int);
            }
            if q < order@.len() {
                assert(before[q as int] == order@[q as int] as int);
            }
            lemma_insert_at(p, i as int, before, q as int);
        }
        order.insert(q, i);
        proof {
            assert(order@.map_values(|k: usize| k as int) =~= before.take(q as int) + seq![i as int]
                + before.skip(q as int));
            assert forall|j: int| 0 <= j < order@.len() implies #[trigger] order@[j] < i + 1 by {
                if j < q {
                    assert(order@[j] == raw[j]);
                } else if j > q {
                    assert(order@[j] == raw[j - 1]);
                }
            }
        }
        i = i + 1;
    }
    order
}

/// What needs attention comes first: every case appears exactly once, a real failure before a
/// tolerated one before a pass, and within each group the heavier first.
pub proof fn law_page_order(s: Seq<Outcome>)
    ensures
        ({
            let r = ranked_by(sooner(s), s.len() as int);
            &&& r.len() == s.len()
            &&& forall|p: int| 0 <= p < s.len() ==> r.to_multiset().count(p) == 1
            &&& forall|j: int, k: int|
                0 <= j < k < s.len() ==> urgency(s[#[trigger] r[j]]) <= urgency(s[#[trigger] r[k]]) && (urgency(
                    s[r[j]],
                ) == urgency(s[r[k]]) ==> s[r[j]].weight >= s[r[k]].weight)
        }),
{
    let p = sooner(s);
    assert(strict(p)) by {
        assert forall|a: int| !#[trigger] p(a, a) by {}
        assert forall|a: int, b: int, c: int| #[trigger] p(a, b) && #[trigger] p(b, c) implies p(a, c) by {}
    }
    law_ranking_is_sorted(p, s.len() as int);
    lemma_ranked_contents(p, s.len() as int);
}

/// The fold kept for a case, if any.
pub open spec fn run_of(runs: Map<Seq<char>, String>, name: Seq<char>) -> Option<Seq<char>> {
    if runs.contains_key(name) {
        Some(runs[name]@)
    } else {
        None
    }
}

/// The whole page, rows in order of urgency, each case's run foldable underneath it.
pub open spec fn page_text(s: Seq<Outcome>, runs: Map<Seq<char>, String>) -> Seq<char> {
    let sum = summary_of(s);
    let r = ranked_by(sooner(s), s.len() as int);
    "<!doctype html>\n<html lang=\"en\">\n<head>\n<meta charset=\"utf-8\">\n<title>gaveldrop report</title>\n<style>"@
        + STYLE@ + "</style>\n</head>\n<body>\n<h1>gaveldrop</h1>\n<p class=\"summary\">"@ + decimal(
        sum.total as nat,
    ) + " cases · "@ + decimal(sum.passed as nat) + " passed · "@ + decimal(sum.failed as nat)
        + " failed · "@ + decimal(sum.tolerated as nat) + " tolerated · score "@ + decimal(
        sum.score as nat,
    ) + "/"@ + decimal(sum.max_score as nat) + "</p>\n<table>"@ + joined(
        r.map_values(|k: int| row_html(s[k], run_of(runs, s[k].name@))),
        Seq::empty(),
    ) + "</table>\n</body>\n</html>\n"@
}

/// Renders the page from the folds already rendered for each case.
fn render_page(report: &Report, runs: &StrMap<String>) -> (out: String)
    ensures
        out@ == page_text(report.outcomes@, runs@),
{
    let sum = report.summary();
    let order = ordered(&report.outcomes);
    let ghost s = report.outcomes@;
    let ghost r = ranked_by(sooner(s), s.len() as int);
    proof {
        lemma_ranked_contents(sooner(s), s.len() as int);
    }
    let mut rows: Vec<String> = Vec::new();
    let mut k: usize = 0;
    while k < order.len()
        invariant
            k <= order@.len(),
            s == report.outcomes@,
            r == ranked_by(sooner(s), s.len() as int),
            r.len() == s.len(),
            order@.len() == s.len(),
            forall|j: int| 0 <= j < s.len() ==> #[trigger] r[j] == order@[j] as int,
            forall|j: int| 0 <= j < s.len() ==> 0 <= #[trigger] r[j] < s.len(),
            views(rows@) == r.take(k as int).map_values(|q: int| row_html(s[q], run_of(runs@, s[q].name@))),
        decreases order@.len() - k,
    {
        assert(r[k as int] == order@[k as int] as int);
        let o = &report.outcomes[order[k]];
        let one = row(o, runs.get(o.name.as_str()));
        let ghost before = rows@;
        rows.push(one);
        proof {
            assert(views(rows@) =~= views(before).push(one@));
            assert(r.take(k + 1).map_values(|q: int| row_html(s[q], run_of(runs@, s[q].name@))) =~= r.take(
                k as int,
            ).map_values(|q: int| row_html(s[q], run_of(runs@, s[q].name@))).push(
                row_html(s[r[k as int]], run_of(runs@, s[r[k as int]].name@)),
            ));
        }
        k = k + 1;
    }
    assert(r.take(r.len() as int) =~= r);
    proof {
        reveal_strlit("");
        assert(""@ =~= Seq::<char>::empty());
    }
    let mut out = String::from_str(
        "<!doctype html>\n<html lang=\"en\">\n<head>\n<meta charset=\"utf-8\">\n<title>gaveldrop report</title>\n<style>",
    );
    out.append(STYLE);
    out.append("</style>\n</head>\n<body>\n<h1>gaveldrop</h1>\n<p class=\"summary\">");
    out.append(crate::text::decimal_string(sum.total as u64).as_str());
    out.append(" cases · ");
    out.append(crate::text::decimal_string(sum.passed as u64).as_str());
    out.append(" passed · ");
    out.append(crate::text::decimal_string(sum.failed as u64).as_str());
    out.append(" failed · ");
    out.append(crate::text::decimal_string(sum.tolerated as u64).as_str());
    out.append(" tolerated · score ");
    out.append(crate::text::decimal_string(sum.score as u64).as_str());
    out.append("/");
    out.append(crate::text::decimal_string(sum.max_score as u64).as_str());
    out.append("</p>\n<table>");
    out.append(crate::text::join(&rows, "").as_str());
    out.append("</table>\n</body>\n</html>\n");
    out
}

/// Renders the whole report as one HTML page, with no case unfoldable.
pub fn render(report: &Report) -> (out: String)
    ensures
        out@ == page_text(report.outcomes@, Map::empty()),
{
    let runs: StrMap<String> = StrMap::new();
    render_page(report, &runs)
}

/// The folds of a map of observations: each case's run, rendered.
pub open spec fn folds_of(
    seen: Map<Seq<char>, Observations>,
    runs: Map<Seq<char>, String>,
) -> bool {
    &&& runs.dom() == seen.dom()
    &&& forall|k: Seq<char>| #[trigger] seen.contains_key(k) ==> is_run_text(seen[k], runs[k]@)
}

/// Renders the page, with each case's own run foldable underneath it.
pub fn render_with(report: &Report, seen: &StrMap<Observations>) -> (out: String)
    ensures
        exists|runs: Map<Seq<char>, String>|
            folds_of(seen@, runs) && out@ == page_text(report.outcomes@, runs),
{
    let pairs = seen.pairs_vec();
    proof {
        seen.lemma_view();
        lemma_map_of_ascending(seen.pairs());
    }
    let mut runs: StrMap<String> = StrMap::new();
    let mut i: usize = 0;
    while i < pairs.len()
        invariant
            i <= pairs@.len(),
            pairs@ == seen.pairs(),
            ascending(keys_of(seen.pairs())),
            forall|j: int|
                0 <= j < pairs@.len() ==> seen@.contains_key(#[trigger] pairs@[j].0@) && seen@[pairs@[j].0@]
                    == pairs@[j].1,
            forall|k: Seq<char>| seen@.contains_key(k) <==> keys_of(seen.pairs()).contains(k),
            forall|k: Seq<char>|
                runs@.contains_key(k) <==> exists|j: int| 0 <= j < i && #[trigger] pairs@[j].0@ == k,
            forall|k: Seq<char>| #[trigger] runs@.contains_key(k) ==> is_run_text(seen@[k], runs@[k]@),
        decreases pairs@.len() - i,
    {
        let detail = run_detail(&pairs[i].1);
        let ghost key = pairs@[i as int].0@;
        runs.insert(pairs[i].0.clone(), detail);
        proof {
            assert forall|k: Seq<char>|
                runs@.contains_key(k) <==> exists|j: int| 0 <= j < i + 1 && #[trigger] pairs@[j].0@ == k by {
                if k == key {
                    assert(pairs@[i as int].0@ == k);
                }
            }
        }
        i = i + 1;
    }
    proof {
        assert(runs@.dom() =~= seen@.dom()) by {
            assert forall|k: Seq<char>| runs@.contains_key(k) <==> seen@.contains_key(k) by {
                if seen@.contains_key(k) {
                    let ks = keys_of(seen.pairs());
                    assert(ks.contains(k));
                    let j = ks.index_of(k);
                    assert(0 <= j < ks.len() && ks[j] == k);
                    assert(pairs@[j].0@ == k);
                }
            }
        }
    }
    assert(folds_of(seen@, runs@));
    let out = render_page(report, &runs);
    assert(folds_of(seen@, runs@) && out@ == page_text(report.outcomes@, runs@));
    out
}

/// Writes the page once the suite has finished.
pub struct Html {
    out: String,
    runs: StrMap<String>,
}

impl Html {
    /// What this renderer has written so far.
    pub closed spec fn written(&self) -> Seq<char> {
        self.out@
    }

    /// The folds kept so far, by case name.
    pub closed spec fn runs(&self) -> Map<Seq<char>, String> {
        self.runs@
    }

    /// A renderer with nothing written and nothing kept.
    pub fn new() -> (h: Html)
        ensures
            h.written().len() == 0,
            h.runs() == Map::<Seq<char>, String>::empty(),
    {
        Html { out: String::new(), runs: StrMap::new() }
    }

    /// Everything written so far.
    pub fn text(&self) -> (s: &str)
        ensures
            s@ == self.written(),
    {
        self.out.as_str()
    }
}

impl Sink for Html {
    fn case_finished(&mut self, outcome: &Outcome)
        ensures
            final(self).written() == old(self).written(),
            final(self).runs() == old(self).runs(),
    {
    }

    /// Kept until `finish`, because a page is written once and in one piece. A duplicate name
    /// overwrites.
    fn observed(&mut self, case: &str, observations: &Observations)
        ensures
            final(self).written() == old(self).written(),
            final(self).runs().dom() == old(self).runs().dom().insert(case@),
            is_run_text(*observations, final(self).runs()[case@]@),
            forall|k: Seq<char>|
                k != case@ && old(self).runs().contains_key(k) ==> final(self).runs()[k] == old(
                    self,
                ).runs()[k],
    {
        let detail = run_detail(observations);
        self.runs.insert(String::from_str(case), detail);
    }

    fn finish(&mut self, report: &Report)
        ensures
            final(self).written() == old(self).written() + page_text(report.outcomes@, old(self).runs()),
            final(self).runs() == old(self).runs(),
    {
        let page = render_page(report, &self.runs);
        self.out.append(page.as_str());
    }
}

} // verus!
