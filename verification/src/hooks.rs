//! Project hooks: the executables a case names to prepare its directory or check its result.
//!
//! Running one is the caller's work. What it is handed, and how its failure is reported, is
//! decided here.

use vstd::prelude::*;
use crate::case::Case;
use crate::order::before;
use crate::report::jsonl::{json_quoted, quoted};
use crate::text::{begins, joined, signed_decimal, trimmed, views};
use crate::value::{Value, json_text};

verus! {

/// What can go wrong running a hook.
#[derive(Debug)]
pub enum HookError {
    /// The hook could not be started.
    Spawn {
        /// Which hook: `setup` or `expect`.
        which: &'static str,
        /// The hook's path, as the case wrote it.
        path: String,
        /// The underlying failure.
        source: std::io::Error,
    },
    /// The hook ran and exited unsuccessfully.
    Refused {
        /// Which hook: `setup` or `expect`.
        which: &'static str,
        /// The hook's path, as the case wrote it.
        path: String,
        /// Its exit code, `-1` when a signal ended it.
        code: i32,
        /// What it wrote on standard error, trimmed.
        stderr: String,
    },
    /// What passed between the engine and the hook was not the expected JSON.
    Protocol {
        /// Which hook: `setup` or `expect`.
        which: &'static str,
        /// The hook's path, as the case wrote it.
        path: String,
        /// The underlying failure.
        source: serde_json::Error,
    },
}

/// The sentence for a hook that exited unsuccessfully.
pub open spec fn refused_text(which: Seq<char>, path: Seq<char>, code: i32, stderr: Seq<char>) -> Seq<char> {
    "the "@ + which + " hook `"@ + path + "` exited with "@ + signed_decimal(code as int) + ": "@ + stderr
}

impl HookError {
    /// What the failure says.
    pub fn message(&self) -> (text: String)
        ensures
            self matches HookError::Spawn { which, path, .. } ==> begins(
                text@,
                "running the "@ + which@ + " hook `"@ + path@ + "`: "@,
            ),
            self matches HookError::Refused { which, path, code, stderr } ==> text@ == refused_text(
                which@,
                path@,
                *code,
                stderr@,
            ),
            self matches HookError::Protocol { which, path, .. } ==> begins(
                text@,
                "the "@ + which@ + " hook `"@ + path@ + "` protocol: "@,
            ),
    {
        match self {
            HookError::Spawn { which, path, source } => {
                let mut out = String::from_str("running the ");
                out.append(which);
                out.append(" hook `");
                out.append(path.as_str());
                out.append("`: ");
                let ghost head = out@;
                out.append(crate::ext::io_error_text(source).as_str());
                assert(out@.subrange(0, head.len() as int) =~= head);
                out
            },
            HookError::Refused { which, path, code, stderr } => {
                let mut out = String::from_str("the ");
                out.append(which);
                out.append(" hook `");
                out.append(path.as_str());
                out.append("` exited with ");
                out.append(crate::text::signed_decimal_string(*code as i64).as_str());
                out.append(": ");
                out.append(stderr.as_str());
                out
            },
            HookError::Protocol { which, path, source } => {
                let mut out = String::from_str("the ");
                out.append(which);
                out.append(" hook `");
                out.append(path.as_str());
                out.append("` protocol: ");
                let ghost head = out@;
                out.append(crate::ext::json_error_text(source).as_str());
                assert(out@.subrange(0, head.len() as int) =~= head);
                out
            },
        }
    }
}

/// The hook's verdict on how it exited: nothing when it succeeded, or the refusal naming its exit
/// code (`-1` when it has none) and what it wrote on standard error, trimmed.
pub fn refuse_on_failure(
    which: &'static str,
    path: &str,
    success: bool,
    code: Option<i32>,
    stderr: &str,
) -> (r: Result<(), HookError>)
    ensures
        success <==> r is Ok,
        r matches Err(e) ==> e matches HookError::Refused { which: w, path: p, code: c, stderr: s } && w == which
            && p@ == path@ && c == (match code {
            Some(n) => n,
            None => -1i32,
        }) && s@ == trimmed(stderr@),
{
    if success {
        return Ok(());
    }
    let c: i32 = match code {
        Some(n) => n,
        None => -1,
    };
    Err(HookError::Refused { which, path: String::from_str(path), code: c, stderr: crate::text::trim(stderr) })
}

/// One member of a JSON object: the key quoted, a colon, the value's text.
pub open spec fn member_text(key: Seq<char>, value: Seq<char>) -> Seq<char> {
    json_quoted(key) + ":"@ + value
}

/// A command line as a JSON array of strings.
pub open spec fn argv_text(argv: Seq<Seq<char>>) -> Seq<char> {
    "["@ + joined(argv.map_values(|a: Seq<char>| json_quoted(a)), ","@) + "]"@
}

/// The members of the setup block in key order: `extra`'s, with `run` — written as `run_text` —
/// placed among them where its key sorts. An extra member of the same name takes its place.
pub open spec fn setup_members(run_text: Option<Seq<char>>, extra: Seq<(String, Value)>) -> Seq<Seq<char>>
    decreases extra.len(),
{
    if extra.len() == 0 {
        match run_text {
            Some(t) => seq![member_text("run"@, t)],
            None => Seq::empty(),
        }
    } else {
        let key = extra[0].0@;
        let m = member_text(key, json_text(extra[0].1));
        match run_text {
            Some(t) => if before("run"@, key) {
                seq![member_text("run"@, t), m] + setup_members(None, extra.drop_first())
            } else if key == "run"@ {
                seq![m] + setup_members(None, extra.drop_first())
            } else {
                seq![m] + setup_members(run_text, extra.drop_first())
            },
            None => seq![m] + setup_members(None, extra.drop_first()),
        }
    }
}

/// What the setup hook reads on its standard input: the case's setup block as one JSON object —
/// its command line under `run` and every key the core keeps opaque, in key order. The hook's own
/// path is not part of what it is told to prepare.
pub open spec fn setup_payload_text(case: Case) -> Seq<char> {
    "{"@ + joined(setup_members(run_value(case), case.setup.extra.pairs()), ","@) + "}"@
}

/// The case's command line as the JSON the setup hook receives under `run`, when it has one.
pub open spec fn run_value(case: Case) -> Option<Seq<char>> {
    match case.setup.run {
        Some(argv) => Some(argv_text(views(argv@))),
        None => None,
    }
}

fn argv_json(argv: &Vec<String>) -> (out: String)
    ensures
        out@ == argv_text(views(argv@)),
{
    let mut quoted_args: Vec<String> = Vec::new();
    let mut i: usize = 0;
    while i < argv.len()
        invariant
            i <= argv@.len(),
            views(quoted_args@) == views(argv@).take(i as int).map_values(|a: Seq<char>| json_quoted(a)),
        decreases argv@.len() - i,
    {
        let ghost before = quoted_args@;
        let q = quoted(argv[i].as_str());
        quoted_args.push(q);
        assert(views(quoted_args@) =~= views(before).push(q@));
        assert(views(argv@).take(i + 1) =~= views(argv@).take(i as int).push(argv@[i as int]@));
        assert(views(argv@).take(i + 1).map_values(|a: Seq<char>| json_quoted(a)) =~= views(argv@).take(
            i as int,
        ).map_values(|a: Seq<char>| json_quoted(a)).push(json_quoted(argv@[i as int]@)));
        i = i + 1;
    }
    assert(views(argv@).take(argv@.len() as int) =~= views(argv@));
    let mut out = String::from_str("[");
    out.append(crate::text::join(&quoted_args, ",").as_str());
    out.append("]");
    out
}

fn member(key: &str, value: &str) -> (out: String)
    ensures
        out@ == member_text(key@, value@),
{
    let mut out = quoted(key);
    out.append(":");
    out.append(value);
    out
}

/// The setup block as the setup hook receives it on its standard input.
pub fn setup_payload(case: &Case) -> (out: String)
    ensures
        out@ == setup_payload_text(*case),
{
    let extra = case.setup.extra.pairs_vec();
    let run_text: Option<String> = match &case.setup.run {
        Some(argv) => Some(argv_json(argv)),
        None => None,
    };
    let ghost whole = run_value(*case);
    let mut members: Vec<String> = Vec::new();
    let mut pending: bool = run_text.is_some();
    let mut i: usize = 0;
    assert(extra@.skip(0) =~= extra@);
    while i < extra.len()
        invariant
            i <= extra@.len(),
            extra@ == case.setup.extra.pairs(),
            run_text is Some <==> whole is Some,
            run_text matches Some(t) ==> whole == Some(t@),
            pending ==> run_text is Some,
            views(members@) + setup_members(if pending { whole } else { None }, extra@.skip(i as int))
                == setup_members(whole, extra@),
        decreases extra@.len() - i,
    {
        let key = &extra[i].0;
        let ghost rest = extra@.skip(i as int);
        assert(rest[0] == extra@[i as int]);
        assert(rest.drop_first() =~= extra@.skip(i + 1));
        let text = crate::value::to_json(&extra[i].1);
        let m = member(key.as_str(), text.as_str());
        let ghost before_members = members@;
        match &run_text {
            Some(t) => {
                if pending && crate::order::sorts_before("run", key.as_str()) {
                    members.push(member("run", t.as_str()));
                    pending = false;
                } else if pending && crate::order::same(key.as_str(), "run") {
                    pending = false;
                }
            },
            None => {},
        }
        let ghost run_placed = members@;
        members.push(m);
        assert(views(members@) =~= views(run_placed) + seq![m@]);
        i = i + 1;
    }
    if pending {
        match &run_text {
            Some(t) => {
                let ghost before_members = members@;
                members.push(member("run", t.as_str()));
                assert(views(members@) =~= views(before_members) + seq![member_text("run"@, t@)]);
            },
            None => {},
        }
    }
    proof {
        assert(extra@.skip(extra@.len() as int) =~= Seq::<(String, Value)>::empty());
        if !pending {
            assert(views(members@) =~= setup_members(whole, extra@));
        }
    }
    let mut out = String::from_str("{");
    out.append(crate::text::join(&members, ",").as_str());
    out.append("}");
    out
}


/// The setup hook is told what to prepare, never where it lives: two cases that differ only in the
/// hook they name hand it the same payload.
pub proof fn law_the_hook_is_not_told_its_own_path(a: Case, b: Case)
    requires
        a.setup.run == b.setup.run,
        a.setup.extra.pairs() == b.setup.extra.pairs(),
    ensures
        setup_payload_text(a) == setup_payload_text(b),
{
}

} // verus!
