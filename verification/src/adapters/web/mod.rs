//! The web adapter's own decisions: which names a step may substitute, and what one exchange asks
//! for.

pub mod request;
pub mod subject;

use vstd::prelude::*;
use crate::adapters::{AdapterError, listed_strings, resolved_command, strings_of};
use crate::adapters::shell::setup_value;
use crate::case::Case;
use crate::iso::paths::{expand_known, known_from};
use crate::strmap::{StrMap, ascending, keys_of, lemma_map_of_ascending};
use crate::text::views;
use crate::value::{Value, json_text};

verus! {

/// Copies every pair of `from` into `into`, each replacing what `into` held under its key.
fn overlay(into: &mut StrMap<String>, from: &StrMap<String>)
    ensures
        final(into)@ == old(into)@.union_prefer_right(from@),
{
    let pairs = from.pairs_vec();
    proof {
        from.lemma_view();
        lemma_map_of_ascending(from.pairs());
    }
    let ghost start = into@;
    let mut i: usize = 0;
    while i < pairs.len()
        invariant
            i <= pairs@.len(),
            pairs@ == from.pairs(),
            forall|j: int|
                0 <= j < pairs@.len() ==> from@.contains_key(#[trigger] pairs@[j].0@) && from@[pairs@[j].0@]
                    == pairs@[j].1,
            forall|k: Seq<char>| from@.contains_key(k) <==> keys_of(from.pairs()).contains(k),
            ascending(keys_of(from.pairs())),
            forall|k: Seq<char>|
                #[trigger] into@.contains_key(k) <==> (start.contains_key(k) || exists|j: int|
                    0 <= j < i && #[trigger] pairs@[j].0@ == k),
            forall|k: Seq<char>|
                #[trigger] into@.contains_key(k) ==> into@[k] == if (exists|j: int|
                    0 <= j < i && #[trigger] pairs@[j].0@ == k) {
                    from@[k]
                } else {
                    start[k]
                },
        decreases pairs@.len() - i,
    {
        let ghost key = pairs@[i as int].0@;
        into.insert(pairs[i].0.clone(), pairs[i].1.clone());
        proof {
            assert forall|k: Seq<char>|
                #[trigger] into@.contains_key(k) <==> (start.contains_key(k) || exists|j: int|
                    0 <= j < i + 1 && #[trigger] pairs@[j].0@ == k) by {
                if k == key {
                    assert(pairs@[i as int].0@ == k);
                }
            }
            assert forall|k: Seq<char>| #[trigger] into@.contains_key(k) implies into@[k] == if (exists|j: int|
                0 <= j < i + 1 && #[trigger] pairs@[j].0@ == k) {
                from@[k]
            } else {
                start[k]
            } by {
                if k == key {
                    assert(pairs@[i as int].0@ == k);
                } else {
                    if exists|j: int| 0 <= j < i + 1 && #[trigger] pairs@[j].0@ == k {
                        let j = choose|j: int| 0 <= j < i + 1 && #[trigger] pairs@[j].0@ == k;
                        assert(j < i);
                    }
                }
            }
        }
        i = i + 1;
    }
    proof {
        let want = start.union_prefer_right(from@);
        assert forall|k: Seq<char>| #[trigger] into@.contains_key(k) <==> want.contains_key(k) by {
            if from@.contains_key(k) {
                let ks = keys_of(from.pairs());
                let j = ks.index_of(k);
                assert(0 <= j < ks.len() && ks[j] == k);
                assert(pairs@[j].0@ == k);
            }
        }
        assert forall|k: Seq<char>| #[trigger] into@.contains_key(k) implies into@[k] == want[k] by {
            if exists|j: int| 0 <= j < pairs@.len() && #[trigger] pairs@[j].0@ == k {
                let j = choose|j: int| 0 <= j < pairs@.len() && #[trigger] pairs@[j].0@ == k;
                assert(from@.contains_key(k));
            } else {
                if from@.contains_key(k) {
                    let ks = keys_of(from.pairs());
                    let j = ks.index_of(k);
                    assert(0 <= j < ks.len() && ks[j] == k);
                    assert(pairs@[j].0@ == k);
                }
            }
        }
        assert(into@ =~= want);
    }
}

/// Isolation wins over a capture of the same name, and a capture is available beside isolation's
/// names rather than instead of them.
pub proof fn law_isolation_wins(captured: Map<Seq<char>, String>, defined: Map<Seq<char>, String>, k: Seq<char>)
    ensures
        defined.contains_key(k) ==> captured.union_prefer_right(defined)[k] == defined[k],
        captured.contains_key(k) && !defined.contains_key(k) ==> captured.union_prefer_right(defined)[k]
            == captured[k],
        captured.union_prefer_right(defined).contains_key(k) <==> (captured.contains_key(k)
            || defined.contains_key(k)),
{
}

/// The names a step may substitute: what earlier steps captured, with isolation's own on top.
///
/// Isolation wins: `HOME` means the isolated home in every case ever written, and a document able to
/// redefine it would hand the load-bearing invariant to whoever writes the case.
pub fn names_for(captured: &StrMap<String>, defined: &StrMap<String>) -> (names: StrMap<String>)
    ensures
        names@ == captured@.union_prefer_right(defined@),
{
    let mut names: StrMap<String> = StrMap::new();
    overlay(&mut names, captured);
    assert(Map::<Seq<char>, String>::empty().union_prefer_right(captured@) =~= captured@);
    overlay(&mut names, defined);
    names
}

/// The command line that starts the service, with what isolation defines substituted, or the
/// refusal of a case that names none.
pub fn serve_command(case: &Case, defined: &StrMap<String>) -> (r: Result<Vec<String>, AdapterError>)
    ensures
        r is Ok <==> listed_strings(setup_value(*case, "serve"@)).len() > 0,
        r matches Ok(argv) ==> views(argv@) == listed_strings(setup_value(*case, "serve"@)).map_values(
            |a: Seq<char>| known_from(a, 0, defined@),
        ),
        r matches Err(e) ==> (e matches AdapterError::Unsupported { case: name, reason } && name@ == case.name@
            && reason@ == "setup has no `serve` command line naming the service to start"@),
{
    let declared = strings_of(case.setup.extra.get("serve"));
    if declared.len() == 0 {
        return Err(AdapterError::Unsupported {
            case: case.name.clone(),
            reason: String::from_str("setup has no `serve` command line naming the service to start"),
        });
    }
    Ok(resolved_command(declared.as_slice(), defined))
}

/// What to probe before the first exchange: the case's `ready` URL, with what isolation defines
/// substituted, when it names one.
pub fn ready_probe(case: &Case, defined: &StrMap<String>) -> (probe: Option<String>)
    ensures
        setup_value(*case, "ready"@) matches Some(Value::String(s)) ==> (probe matches Some(p) && p@ == known_from(s@, 0, defined@)),
        !(setup_value(*case, "ready"@) matches Some(Value::String(_))) ==> probe is None,
{
    match case.setup.extra.get("ready") {
        Some(Value::String(s)) => Some(expand_known(s.as_str(), defined)),
        _ => None,
    }
}

/// A captured value as a later step substitutes it: a string without its JSON quotes, anything
/// else as its JSON text.
pub fn as_text(value: &Value) -> (text: String)
    ensures
        value matches Value::String(s) ==> text@ == s@,
        !(value is String) ==> text@ == json_text(*value),
{
    match value {
        Value::String(s) => s.clone(),
        _ => crate::value::to_json(value),
    }
}

} // verus!
