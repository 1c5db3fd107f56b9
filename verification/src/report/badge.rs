//! A badge carrying the verdict, written at the end of a run.
//!
//! It is true of **the run that wrote the file** and of nothing else, and its `<title>` says so.

use vstd::prelude::*;
use crate::outcome::Outcome;
use crate::report::{Report, Sink, Summary, failing, summary_of};
use crate::text::decimal;

verus! {

/// The verdict as a colour: red when a case failed, amber when every failure was tolerated but
/// one was, green for a clean run.
pub open spec fn colour_of(s: Seq<Outcome>) -> Seq<char> {
    if failing(s) > 0 {
        "#b3403f"@
    } else if summary_of(s).tolerated > 0 {
        "#9a6b12"@
    } else {
        "#2e6f52"@
    }
}

/// What the badge cannot show, said where a reader can find it.
pub open spec fn title_of(sum: Summary) -> Seq<char> {
    "gaveldrop: "@ + decimal(sum.score as nat) + "/"@ + decimal(sum.max_score as nat) + " weighted, "@
        + decimal(sum.passed as nat) + " of "@ + decimal(sum.total as nat) + " cases passed, "@
        + decimal(sum.tolerated as nat) + " tolerated — as of the run that wrote this file"@
}

/// The score as the badge shows it.
pub open spec fn value_of(sum: Summary) -> Seq<char> {
    decimal(sum.score as nat) + "/"@ + decimal(sum.max_score as nat)
}

/// The width of the label box: the word `gaveldrop` at seven pixels a character, plus padding.
pub open spec fn label_width() -> nat {
    75
}

/// The width of the value box, computed from the value rather than fixed.
pub open spec fn value_width(value: Seq<char>) -> nat {
    12 + value.len() * 7
}

/// The badge itself.
pub open spec fn svg_text(value: Seq<char>, colour: Seq<char>, title: Seq<char>) -> Seq<char> {
    let lw = label_width();
    let vw = value_width(value);
    "<svg xmlns=\"http://www.w3.org/2000/svg\" width=\""@ + decimal(lw + vw)
        + "\" height=\"20\" role=\"img\" aria-label=\"gaveldrop "@ + value + "\">\n"@
        + "  <title>"@ + title + "</title>\n"@ + "  <rect width=\""@ + decimal(lw)
        + "\" height=\"20\" fill=\"#4a4f5a\"/>\n"@ + "  <rect x=\""@ + decimal(lw) + "\" width=\""@
        + decimal(vw) + "\" height=\"20\" fill=\""@ + colour + "\"/>\n"@
        + "  <g font-family=\"Verdana,Geneva,DejaVu Sans,sans-serif\" font-size=\"11\" fill=\"#ffffff\">\n"@
        + "    <text x=\""@ + decimal(lw / 2) + "\" y=\"14\" text-anchor=\"middle\">gaveldrop</text>\n"@
        + "    <text x=\""@ + decimal(lw + vw / 2)
        + "\" y=\"14\" text-anchor=\"middle\" font-weight=\"bold\">"@ + value + "</text>\n"@
        + "  </g>\n"@ + "</svg>\n"@
}

/// The badge of a run whose outcomes are `s`.
pub open spec fn badge_text(s: Seq<Outcome>) -> Seq<char> {
    let sum = summary_of(s);
    svg_text(value_of(sum), colour_of(s), title_of(sum))
}

fn colour(report: &Report) -> (c: &'static str)
    ensures
        c@ == colour_of(report.outcomes@),
{
    let sum = report.summary();
    if !report.is_success() {
        "#b3403f"
    } else if sum.tolerated > 0 {
        "#9a6b12"
    } else {
        "#2e6f52"
    }
}

fn title(sum: &Summary) -> (t: String)
    ensures
        t@ == title_of(*sum),
{
    let mut t = String::from_str("gaveldrop: ");
    t.append(crate::text::decimal_string(sum.score as u64).as_str());
    t.append("/");
    t.append(crate::text::decimal_string(sum.max_score as u64).as_str());
    t.append(" weighted, ");
    t.append(crate::text::decimal_string(sum.passed as u64).as_str());
    t.append(" of ");
    t.append(crate::text::decimal_string(sum.total as u64).as_str());
    t.append(" cases passed, ");
    t.append(crate::text::decimal_string(sum.tolerated as u64).as_str());
    t.append(" tolerated — as of the run that wrote this file");
    t
}

fn render(value: &str, colour: &str, title: &str) -> (out: String)
    requires
        value@.len() <= 100,
    ensures
        out@ == svg_text(value@, colour@, title@),
{
    let n = crate::text::chars_of(value).len();
    let lw: u64 = 75;
    let vw: u64 = 12 + (n as u64) * 7;
    let mut out = String::from_str("<svg xmlns=\"http://www.w3.org/2000/svg\" width=\"");
    out.append(crate::text::decimal_string(lw + vw).as_str());
    out.append("\" height=\"20\" role=\"img\" aria-label=\"gaveldrop ");
    out.append(value);
    out.append("\">\n");
    out.append("  <title>");
    out.append(title);
    out.append("</title>\n");
    out.append("  <rect width=\"");
    out.append(crate::text::decimal_string(lw).as_str());
    out.append("\" height=\"20\" fill=\"#4a4f5a\"/>\n");
    out.append("  <rect x=\"");
    out.append(crate::text::decimal_string(lw).as_str());
    out.append("\" width=\"");
    out.append(crate::text::decimal_string(vw).as_str());
    out.append("\" height=\"20\" fill=\"");
    out.append(colour);
    out.append("\"/>\n");
    out.append(
        "  <g font-family=\"Verdana,Geneva,DejaVu Sans,sans-serif\" font-size=\"11\" fill=\"#ffffff\">\n",
    );
    out.append("    <text x=\"");
    out.append(crate::text::decimal_string(lw / 2).as_str());
    out.append("\" y=\"14\" text-anchor=\"middle\">gaveldrop</text>\n");
    out.append("    <text x=\"");
    out.append(crate::text::decimal_string(lw + vw / 2).as_str());
    out.append("\" y=\"14\" text-anchor=\"middle\" font-weight=\"bold\">");
    out.append(value);
    out.append("</text>\n");
    out.append("  </g>\n");
    out.append("</svg>\n");
    out
}

/// Writes an SVG badge once the run is over.
pub struct Badge {
    out: String,
}

impl Badge {
    /// What this renderer has written so far.
    pub closed spec fn written(&self) -> Seq<char> {
        self.out@
    }

    /// A badge renderer with nothing written yet.
    pub fn new() -> (b: Badge)
        ensures
            b.written().len() == 0,
    {
        Badge { out: String::new() }
    }

    /// Everything written so far.
    pub fn text(&self) -> (s: &str)
        ensures
            s@ == self.written(),
    {
        self.out.as_str()
    }
}

impl Sink for Badge {
    /// Nothing per case: a badge is one value and it needs the totals.
    fn case_finished(&mut self, outcome: &Outcome)
        ensures
            final(self).written() == old(self).written(),
    {
    }

    fn finish(&mut self, report: &Report)
        ensures
            final(self).written() == old(self).written() + badge_text(report.outcomes@),
    {
        let sum = report.summary();
        let mut value = crate::text::decimal_string(sum.score as u64);
        value.append("/");
        value.append(crate::text::decimal_string(sum.max_score as u64).as_str());
        proof {
            reveal_with_fuel(crate::text::power10, 11);
            assert(crate::text::power10(10) == 10000000000);
            crate::text::lemma_decimal_len(sum.score as nat, 10);
            crate::text::lemma_decimal_len(sum.max_score as nat, 10);
            reveal_strlit("/");
        }
        let t = title(&sum);
        let svg = render(value.as_str(), colour(report), t.as_str());
        self.out.append(svg.as_str());
    }
}

} // verus!
