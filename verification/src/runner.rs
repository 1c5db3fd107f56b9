//! What the driver decides around each case: the trace `--verbose` prints before it runs, and how a
//! project's own check is folded into the verdict after.
//!
//! Isolating, invoking and timing a case is the caller's loop; these are the decisions inside it.

use vstd::prelude::*;
use crate::case::Case;
use crate::config::Config;
use crate::iso::unhidden;
use crate::outcome::{Diff, Outcome};
use crate::strmap::StrMap;
use crate::text::{decimal, joined, views};

verus! {

/// `key=value` for each of the case's own variables, with the value isolation resolved it to.
pub open spec fn resolved(keys: Seq<Seq<char>>, defined: Map<Seq<char>, String>) -> Seq<Seq<char>> {
    keys.map_values(|k: Seq<char>| k + "="@ + shown(defined, k))
}

/// What a variable resolved to, or a mark that it did not.
pub open spec fn shown(defined: Map<Seq<char>, String>, key: Seq<char>) -> Seq<char> {
    if defined.contains_key(key) {
        defined[key]@
    } else {
        "(unresolved)"@
    }
}

/// One line of the trace when `present`, none otherwise.
pub open spec fn line_if(present: bool, line: Seq<char>) -> Seq<Seq<char>> {
    if present {
        seq![line]
    } else {
        Seq::empty()
    }
}

/// The trace of what the engine decided for a case, line by line: which adapter claimed it, where
/// its root is, which tools are faked and which hidden, what its variables resolved to, what the
/// project clears, and how many exchanges it makes.
pub open spec fn note_lines(
    case: Case,
    config: Config,
    root: Seq<char>,
    defined: Map<Seq<char>, String>,
    adapter: Seq<char>,
) -> Seq<Seq<char>> {
    let faked = unhidden(views(config.fake.bins@), views(case.setup.hide@));
    seq!["adapter    "@ + adapter, "root       "@ + root]
        + line_if(faked.len() > 0, "faked      "@ + joined(faked, ", "@))
        + line_if(
        case.setup.hide@.len() > 0,
        "hidden     "@ + joined(views(case.setup.hide@), ", "@)
            + " (and everything else in the directories that held them)"@,
    ) + line_if(
        case.setup.env.pairs().len() > 0,
        "env        "@ + joined(resolved(case.setup.env.keys(), defined), " "@),
    ) + line_if(config.clear_env@.len() > 0, "cleared    "@ + joined(views(config.clear_env@), ", "@))
        + line_if(case.steps@.len() > 0, "steps      "@ + decimal(case.steps@.len()))
}

fn prefixed(prefix: &str, text: &str) -> (out: String)
    ensures
        out@ == prefix@ + text@,
{
    let mut out = String::from_str(prefix);
    out.append(text);
    out
}

fn resolutions(case: &Case, defined: &StrMap<String>) -> (out: Vec<String>)
    ensures
        views(out@) == resolved(case.setup.env.keys(), defined@),
{
    let pairs = case.setup.env.pairs_vec();
    let mut out: Vec<String> = Vec::new();
    let mut i: usize = 0;
    while i < pairs.len()
        invariant
            i <= pairs@.len(),
            pairs@ == case.setup.env.pairs(),
            views(out@) == resolved(case.setup.env.keys().take(i as int), defined@),
        decreases pairs@.len() - i,
    {
        let key = &pairs[i].0;
        let mut line = String::from_str(key.as_str());
        line.append("=");
        match defined.get(key.as_str()) {
            Some(value) => line.append(value.as_str()),
            None => line.append("(unresolved)"),
        }
        let ghost before = out@;
        out.push(line);
        proof {
            assert(case.setup.env.keys().take(i + 1) =~= case.setup.env.keys().take(i as int).push(key@));
            assert(views(out@) =~= views(before).push(line@));
            assert(resolved(case.setup.env.keys().take(i + 1), defined@) =~= resolved(
                case.setup.env.keys().take(i as int),
                defined@,
            ).push(key@ + "="@ + shown(defined@, key@)));
        }
        i = i + 1;
    }
    assert(case.setup.env.keys().take(pairs@.len() as int) =~= case.setup.env.keys());
    out
}

/// What the engine decided for `case`, for `--verbose` to print.
///
/// `root` is the isolated root as text and `defined` what isolation defines, the case's own
/// variables included. It does not dump the whole environment: the lines that matter would drown.
pub fn prepared(case: &Case, config: &Config, root: &str, defined: &StrMap<String>, adapter: &str) -> (note: Vec<
    String,
>)
    ensures
        views(note@) == note_lines(*case, *config, root@, defined@, adapter@),
{
    let mut note: Vec<String> = Vec::new();
    note.push(prefixed("adapter    ", adapter));
    note.push(prefixed("root       ", root));
    let ghost mut lines: Seq<Seq<char>> = seq!["adapter    "@ + adapter@, "root       "@ + root@];
    assert(views(note@) =~= lines);

    let faked = crate::iso::linked(config.fake.bins.as_slice(), case.setup.hide.as_slice());
    let ghost f = unhidden(views(config.fake.bins@), views(case.setup.hide@));
    if faked.len() > 0 {
        let joined_faked = crate::text::join(&faked, ", ");
        note.push(prefixed("faked      ", joined_faked.as_str()));
    }
    proof {
        lines = lines + line_if(f.len() > 0, "faked      "@ + joined(f, ", "@));
        assert(views(note@) =~= lines);
    }

    if case.setup.hide.len() > 0 {
        let mut line = String::from_str("hidden     ");
        line.append(crate::text::join(&case.setup.hide, ", ").as_str());
        line.append(" (and everything else in the directories that held them)");
        note.push(line);
    }
    proof {
        lines = lines + line_if(
            case.setup.hide@.len() > 0,
            "hidden     "@ + joined(views(case.setup.hide@), ", "@)
                + " (and everything else in the directories that held them)"@,
        );
        assert(views(note@) =~= lines);
    }

    if case.setup.env.len() > 0 {
        let parts = resolutions(case, defined);
        let joined_parts = crate::text::join(&parts, " ");
        note.push(prefixed("env        ", joined_parts.as_str()));
    }
    proof {
        lines = lines + line_if(
            case.setup.env.pairs().len() > 0,
            "env        "@ + joined(resolved(case.setup.env.keys(), defined@), " "@),
        );
        assert(views(note@) =~= lines);
    }

    if config.clear_env.len() > 0 {
        let cleared = crate::text::join(&config.clear_env, ", ");
        note.push(prefixed("cleared    ", cleared.as_str()));
    }
    proof {
        lines = lines + line_if(config.clear_env@.len() > 0, "cleared    "@ + joined(views(config.clear_env@), ", "@));
        assert(views(note@) =~= lines);
    }

    if case.steps.len() > 0 {
        let count = crate::text::decimal_string(case.steps.len() as u64);
        note.push(prefixed("steps      ", count.as_str()));
    }
    proof {
        lines = lines + line_if(case.steps@.len() > 0, "steps      "@ + decimal(case.steps@.len()));
        assert(views(note@) =~= lines);
    }
    note
}

/// Folds what the project's `expect.exec` check reported into `outcome`.
///
/// `hook` is the diffs it reported, or why it could not report: that becomes a diff at
/// `expect.exec`, since the case did run and the problem is where the case declared the check.
/// The case then passes when no diff and no unexpected call remains.
pub fn fold_in_expect_hook(outcome: Outcome, hook: Result<Vec<Diff>, String>) -> (o: Outcome)
    ensures
        o.name == outcome.name,
        o.weight == outcome.weight,
        o.allow_fail == outcome.allow_fail,
        o.unexpected_calls == outcome.unexpected_calls,
        o.unmentioned_files == outcome.unmentioned_files,
        o.duration_ms == outcome.duration_ms,
        hook matches Ok(diffs) ==> o.diffs@ == outcome.diffs@ + diffs@,
        hook matches Err(reason) ==> o.diffs@.len() == outcome.diffs@.len() + 1
            && o.diffs@.take(outcome.diffs@.len() as int) == outcome.diffs@
            && o.diffs@.last().path@ == "expect.exec"@ && o.diffs@.last().expected@ == "a working hook"@
            && o.diffs@.last().got == reason,
        o.passed == (o.diffs@.len() == 0 && outcome.unexpected_calls@.len() == 0),
{
    let mut outcome = outcome;
    let ghost before = outcome.diffs@;
    match hook {
        Ok(mut diffs) => {
            outcome.diffs.append(&mut diffs);
        },
        Err(reason) => {
            outcome.diffs.push(
                Diff {
                    path: String::from_str("expect.exec"),
                    expected: String::from_str("a working hook"),
                    got: reason,
                },
            );
            assert(outcome.diffs@.take(before.len() as int) =~= before);
        },
    }
    outcome.passed = outcome.diffs.len() == 0 && outcome.unexpected_calls.len() == 0;
    outcome
}

} // verus!
