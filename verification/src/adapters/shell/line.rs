//! Assembling the one command line the shell is asked to run.
//!
//! A case file is data, and an argument that happens to contain a shell separator must stay one
//! argument.

use vstd::prelude::*;
use crate::text::{joined, views};

verus! {

/// What one character becomes inside single quotes: itself, or — for a single quote — the run
/// closed, an escaped quote, and the run reopened.
pub open spec fn quoted_char(c: char) -> Seq<char> {
    if c == '\'' {
        "'\\''"@
    } else {
        seq![c]
    }
}

/// The characters of `text`, each as it stands inside single quotes.
pub open spec fn quoted_body(text: Seq<char>) -> Seq<char>
    decreases text.len(),
{
    if text.len() == 0 {
        Seq::empty()
    } else {
        quoted_body(text.drop_last()) + quoted_char(text.last())
    }
}

/// `text` as one literal shell word.
pub open spec fn quote_spec(text: Seq<char>) -> Seq<char> {
    "'"@ + quoted_body(text) + "'"@
}

/// Wraps `argument` so the shell treats it as one literal word.
///
/// Single quotes make everything inert; the only character needing care is the single quote itself.
pub fn quote(argument: &str) -> (out: String)
    ensures
        out@ == quote_spec(argument@),
{
    let cs = crate::text::chars_of(argument);
    let mut out = String::from_str("'");
    let mut i: usize = 0;
    while i < cs.len()
        invariant
            i <= cs.len(),
            cs@ == argument@,
            out@ == "'"@ + quoted_body(cs@.take(i as int)),
        decreases cs.len() - i,
    {
        let c = cs[i];
        if c == '\'' {
            out.append("'\\''");
        } else {
            crate::text::push_char(&mut out, c);
        }
        assert(cs@.take(i + 1).drop_last() =~= cs@.take(i as int));
        i = i + 1;
    }
    assert(cs@.take(cs.len() as int) =~= cs@);
    out.append("'");
    out
}

/// Only the single quote is rewritten: an argument holding no `'` goes between single quotes
/// exactly as it is, so the shell reads back that very argument — double quotes, backslashes,
/// dollars and separators included.
pub proof fn law_only_the_single_quote_is_rewritten(argument: Seq<char>)
    requires
        !argument.contains('\''),
    ensures
        quote_spec(argument) == "'"@ + argument + "'"@,
        quoted_body(argument) == argument,
    decreases argument.len(),
{
    if argument.len() > 0 {
        assert(!argument.drop_last().contains('\'')) by {
            if argument.drop_last().contains('\'') {
                let i = choose|i: int| 0 <= i < argument.drop_last().len() && argument.drop_last()[i] == '\'';
                assert(argument[i] == '\'');
            }
        }
        law_only_the_single_quote_is_rewritten(argument.drop_last());
        assert(argument.last() == argument[argument.len() - 1]);
        assert(argument.last() != '\'');
        assert(argument.drop_last() + seq![argument.last()] =~= argument);
    } else {
        assert(argument =~= Seq::<char>::empty());
    }
}

/// `quoted_body` of text put end to end is the bodies put end to end.
proof fn lemma_body_adds(a: Seq<char>, b: Seq<char>)
    ensures
        quoted_body(a + b) == quoted_body(a) + quoted_body(b),
    decreases b.len(),
{
    if b.len() == 0 {
        assert(a + b =~= a);
        assert(quoted_body(a) + Seq::<char>::empty() =~= quoted_body(a));
    } else {
        assert((a + b).drop_last() =~= a + b.drop_last());
        assert((a + b).last() == b.last());
        lemma_body_adds(a, b.drop_last());
        assert(quoted_body(a) + quoted_body(b.drop_last()) + quoted_char(b.last()) =~= quoted_body(a)
            + (quoted_body(b.drop_last()) + quoted_char(b.last())));
    }
}

/// A single quote inside an argument closes the quoted run, adds an escaped quote and reopens
/// it: `a'b` becomes `'a'\''b'`.
pub proof fn law_a_single_quote_closes_and_reopens(a: Seq<char>, b: Seq<char>)
    requires
        !a.contains('\''),
        !b.contains('\''),
    ensures
        quote_spec(a + seq!['\''] + b) == "'"@ + a + "'\\''"@ + b + "'"@,
{
    law_only_the_single_quote_is_rewritten(a);
    law_only_the_single_quote_is_rewritten(b);
    lemma_body_adds(a + seq!['\''], b);
    lemma_body_adds(a, seq!['\'']);
    assert(seq!['\''].drop_last() =~= Seq::<char>::empty());
    assert(quoted_body(Seq::<char>::empty()) == Seq::<char>::empty());
    assert(seq!['\''].last() == '\'');
    assert(quoted_body(seq!['\'']) =~= quoted_char('\''));
    assert(quote_spec(a + seq!['\''] + b) =~= "'"@ + a + "'\\''"@ + b + "'"@);
}

/// The line that sources each file in order, then calls the function, separated by `; `.
pub open spec fn assemble_spec(sources: Seq<Seq<char>>, call: Seq<Seq<char>>) -> Seq<char> {
    let loads = sources.map_values(|f: Seq<char>| "source "@ + quote_spec(f));
    let parts = if call.len() > 0 {
        loads.push(joined(call.map_values(|w: Seq<char>| quote_spec(w)), " "@))
    } else {
        loads
    };
    joined(parts, "; "@)
}

fn quoted_all(words: &[String]) -> (out: Vec<String>)
    ensures
        views(out@) == views(words@).map_values(|w: Seq<char>| quote_spec(w)),
{
    let mut out: Vec<String> = Vec::new();
    let mut i: usize = 0;
    while i < words.len()
        invariant
            i <= words@.len(),
            views(out@) == views(words@.take(i as int)).map_values(|w: Seq<char>| quote_spec(w)),
        decreases words@.len() - i,
    {
        let q = quote(words[i].as_str());
        let ghost before = out@;
        out.push(q);
        proof {
            assert(views(out@) =~= views(before).push(q@));
            assert(views(words@.take(i + 1)).map_values(|w: Seq<char>| quote_spec(w)) =~= views(
                words@.take(i as int),
            ).map_values(|w: Seq<char>| quote_spec(w)).push(quote_spec(words@[i as int]@)));
        }
        i = i + 1;
    }
    assert(words@.take(words@.len() as int) =~= words@);
    out
}

/// The line that sources each file in order, then calls the function.
///
/// Joined with `;` rather than `&&`: a source that fails leaves the function undefined, and the
/// resulting "command not found" says more than a line that stops silently. The function name is
/// quoted like its arguments.
pub fn assemble(sources: &[String], call: &[String]) -> (out: String)
    ensures
        out@ == assemble_spec(views(sources@), views(call@)),
{
    let mut parts: Vec<String> = Vec::new();
    let mut i: usize = 0;
    while i < sources.len()
        invariant
            i <= sources@.len(),
            views(parts@) == views(sources@.take(i as int)).map_values(
                |f: Seq<char>| "source "@ + quote_spec(f),
            ),
        decreases sources@.len() - i,
    {
        let mut part = String::from_str("source ");
        part.append(quote(sources[i].as_str()).as_str());
        let ghost before = parts@;
        parts.push(part);
        proof {
            assert(views(parts@) =~= views(before).push(part@));
            assert(views(sources@.take(i + 1)).map_values(|f: Seq<char>| "source "@ + quote_spec(f))
                =~= views(sources@.take(i as int)).map_values(
                |f: Seq<char>| "source "@ + quote_spec(f),
            ).push("source "@ + quote_spec(sources@[i as int]@)));
        }
        i = i + 1;
    }
    assert(sources@.take(sources@.len() as int) =~= sources@);
    if call.len() > 0 {
        let words = quoted_all(call);
        let line = crate::text::join(&words, " ");
        let ghost before = parts@;
        parts.push(line);
        assert(views(parts@) =~= views(before).push(line@));
    }
    crate::text::join(&parts, "; ")
}

} // verus!
