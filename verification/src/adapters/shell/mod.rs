//! The shell adapter's own decisions: which shell to start, which function to call with which
//! arguments, and what a run of several calls observed as a whole.

pub mod line;

use vstd::prelude::*;
use crate::adapters::{AdapterError, listed_strings, strings_of};
use crate::adapters::process::{all_stderr, all_stdout, request_strings, streams};
use crate::case::{Case, Step};
use crate::fake::journal::{Call, calls_view};
use crate::iso::snapshot::FileEffect;
use crate::observations::Observations;
use crate::text::views;
use crate::value::Value;

verus! {

/// What the case's setup holds under `key`, as the spec sees it.
pub open spec fn setup_value(case: Case, key: Seq<char>) -> Option<Value> {
    if case.setup.extra@.contains_key(key) {
        Some(case.setup.extra@[key])
    } else {
        None
    }
}

/// The strings the case's setup lists under `key`: `call` for the function and its arguments,
/// `source` for the files to source first.
pub fn strings(case: &Case, key: &str) -> (out: Vec<String>)
    ensures
        views(out@) == listed_strings(setup_value(*case, key@)),
{
    strings_of(case.setup.extra.get(key))
}

/// The shell to start: the string the setup holds under `shell`, or the refusal of a case that
/// names none.
pub fn shell_program(case: &Case) -> (r: Result<String, AdapterError>)
    ensures
        r is Ok <==> (setup_value(*case, "shell"@) matches Some(Value::String(_))),
        r matches Ok(shell) ==> (setup_value(*case, "shell"@) matches Some(Value::String(s)) && shell@ == s@),
        r matches Err(e) ==> (e matches AdapterError::Unsupported { case: name, reason } && name@ == case.name@
            && reason@ == "setup has no `shell` naming the shell to run"@),
{
    match case.setup.extra.get("shell") {
        Some(Value::String(s)) => Ok(s.clone()),
        _ => Err(AdapterError::Unsupported {
            case: case.name.clone(),
            reason: String::from_str("setup has no `shell` naming the shell to run"),
        }),
    }
}

/// The function and arguments one exchange calls: its own `call`, or the case's when it names
/// none.
pub fn step_call(step: &Step, fallback: &Vec<String>) -> (call: Vec<String>)
    ensures
        request_strings(*step, "call"@).len() > 0 ==> views(call@) == request_strings(*step, "call"@),
        request_strings(*step, "call"@).len() == 0 ==> views(call@) == views(fallback@),
{
    let own = strings_of(step.request.get("call"));
    if own.len() > 0 {
        return own;
    }
    let mut out: Vec<String> = Vec::new();
    let mut i: usize = 0;
    while i < fallback.len()
        invariant
            i <= fallback@.len(),
            views(out@) == views(fallback@).take(i as int),
        decreases fallback@.len() - i,
    {
        let ghost before = out@;
        out.push(fallback[i].clone());
        assert(views(out@) =~= views(before).push(fallback@[i as int]@));
        assert(views(fallback@).take(i + 1) =~= views(fallback@).take(i as int).push(fallback@[i as int]@));
        i = i + 1;
    }
    assert(views(fallback@).take(fallback@.len() as int) =~= views(fallback@));
    out
}

/// What every exchange's calls say, one after the other.
pub open spec fn all_calls(steps: Seq<Observations>) -> Seq<(Seq<char>, Seq<Seq<char>>, u32, Seq<char>, bool, bool, i32)>
    decreases steps.len(),
{
    if steps.len() == 0 {
        Seq::empty()
    } else {
        all_calls(steps.drop_last()) + calls_view(steps.last().calls@)
    }
}

/// A run of several calls, as a whole: the last call's exit code, every call's output and journal
/// concatenated, and what the whole run changed on disk.
///
/// Each exchange's calls are already only those it added, so together they are the run's.
pub fn gathered(steps: Vec<Observations>, files: Vec<FileEffect>) -> (o: Observations)
    ensures
        o.exit == (if steps@.len() == 0 { 0 } else { steps@.last().exit }),
        o.stdout@ == all_stdout(steps@),
        o.stderr@ == all_stderr(steps@),
        calls_view(o.calls@) == all_calls(steps@),
        o.files == files,
        o.steps == steps,
        o.status is None,
        o.body@.len() == 0,
        o.headers@.dom().len() == 0,
{
    let (stdout, stderr) = streams(&steps);
    let mut calls: Vec<Call> = Vec::new();
    let mut i: usize = 0;
    while i < steps.len()
        invariant
            i <= steps@.len(),
            calls_view(calls@) == all_calls(steps@.take(i as int)),
        decreases steps@.len() - i,
    {
        assert(steps@.take(i + 1).drop_last() =~= steps@.take(i as int));
        let ghost before = calls@;
        let mut copied = crate::fake::journal::calls_copied(&steps[i].calls);
        let ghost added = copied@;
        calls.append(&mut copied);
        assert(calls_view(calls@) =~= calls_view(before) + calls_view(added));
        i = i + 1;
    }
    assert(steps@.take(steps@.len() as int) =~= steps@);
    let n = steps.len();
    let exit: i32 = if n == 0 { 0 } else { steps[n - 1].exit };
    let mut o = Observations::empty();
    o.exit = exit;
    o.stdout = stdout;
    o.stderr = stderr;
    o.calls = calls;
    o.files = files;
    o.steps = steps;
    o
}

} // verus!
