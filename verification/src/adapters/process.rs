//! The process adapter's own decisions: which command line a case and each of its exchanges run,
//! and what a run of several exchanges observed as a whole.

use vstd::prelude::*;
use crate::adapters::{AdapterError, listed_strings, resolved_command, strings_of};
use crate::case::{Case, Step};
use crate::fake::journal::calls_view;
use crate::iso::paths::known_from;
use crate::iso::snapshot::FileEffect;
use crate::observations::Observations;
use crate::strmap::StrMap;
use crate::text::views;

verus! {

/// The command line a case declares, or the refusal of a case that declares none.
pub fn declared(case: &Case) -> (r: Result<Vec<String>, AdapterError>)
    ensures
        r is Ok <==> (case.setup.run matches Some(argv) && argv@.len() > 0),
        r matches Ok(argv) ==> (case.setup.run matches Some(run) && views(argv@) == views(run@)),
        r matches Err(e) ==> (e matches AdapterError::Unsupported { case: name, reason } && name@ == case.name@
            && reason@ == "setup has no `run` command line"@),
{
    match &case.setup.run {
        Some(argv) => {
            if argv.len() > 0 {
                let mut out: Vec<String> = Vec::new();
                let mut i: usize = 0;
                while i < argv.len()
                    invariant
                        i <= argv@.len(),
                        views(out@) == views(argv@).take(i as int),
                    decreases argv@.len() - i,
                {
                    let ghost before = out@;
                    out.push(argv[i].clone());
                    assert(views(out@) =~= views(before).push(argv@[i as int]@));
                    assert(views(argv@).take(i + 1) =~= views(argv@).take(i as int).push(argv@[i as int]@));
                    i = i + 1;
                }
                assert(views(argv@).take(argv@.len() as int) =~= views(argv@));
                return Ok(out);
            }
        },
        None => {},
    }
    Err(AdapterError::Unsupported {
        case: case.name.clone(),
        reason: String::from_str("setup has no `run` command line"),
    })
}

/// What a value found under `key` in a step's request lists, as the spec sees it.
pub open spec fn request_strings(step: Step, key: Seq<char>) -> Seq<Seq<char>> {
    listed_strings(if step.request@.contains_key(key) { Some(step.request@[key]) } else { None })
}

/// The command line one exchange runs: its own `run`, or the case's when it names none.
pub fn step_argv(step: &Step, fallback: &Vec<String>) -> (argv: Vec<String>)
    ensures
        request_strings(*step, "run"@).len() > 0 ==> views(argv@) == request_strings(*step, "run"@),
        request_strings(*step, "run"@).len() == 0 ==> views(argv@) == views(fallback@),
{
    let own = strings_of(step.request.get("run"));
    if own.len() > 0 {
        own
    } else {
        let mut out: Vec<String> = Vec::new();
        let mut i: usize = 0;
        while i < fallback.len()
            invariant
                i <= fallback@.len(),
                views(out@) == views(fallback@).take(i as int),
            decreases fallback@.len() - i,
        {
            let ghost before = out@;
            out.push(fallback[i].clone());
            assert(views(out@) =~= views(before).push(fallback@[i as int]@));
            assert(views(fallback@).take(i + 1) =~= views(fallback@).take(i as int).push(fallback@[i as int]@));
            i = i + 1;
        }
        assert(views(fallback@).take(fallback@.len() as int) =~= views(fallback@));
        out
    }
}

/// The command line to start, with what isolation defines substituted; a case whose line is empty
/// has nothing to start.
pub fn command_line(case: &Case, argv: &[String], defined: &StrMap<String>) -> (r: Result<Vec<String>, AdapterError>)
    ensures
        r is Ok <==> argv@.len() > 0,
        r matches Ok(line) ==> views(line@) == views(argv@).map_values(|a: Seq<char>| known_from(a, 0, defined@)),
        r matches Err(e) ==> (e matches AdapterError::Unsupported { case: name, reason } && name@ == case.name@
            && reason@ == "setup.run is empty"@),
{
    if argv.len() == 0 {
        return Err(AdapterError::Unsupported {
            case: case.name.clone(),
            reason: String::from_str("setup.run is empty"),
        });
    }
    Ok(resolved_command(argv, defined))
}

/// The texts of a list of exchanges' observations, one after the other.
pub open spec fn all_stdout(steps: Seq<Observations>) -> Seq<char>
    decreases steps.len(),
{
    if steps.len() == 0 {
        Seq::empty()
    } else {
        all_stdout(steps.drop_last()) + steps.last().stdout@
    }
}

/// What the exchanges wrote on standard error, one after the other.
pub open spec fn all_stderr(steps: Seq<Observations>) -> Seq<char>
    decreases steps.len(),
{
    if steps.len() == 0 {
        Seq::empty()
    } else {
        all_stderr(steps.drop_last()) + steps.last().stderr@
    }
}

/// Both streams of every exchange, concatenated in order.
pub fn streams(steps: &Vec<Observations>) -> (out: (String, String))
    ensures
        out.0@ == all_stdout(steps@),
        out.1@ == all_stderr(steps@),
{
    let mut stdout = String::new();
    let mut stderr = String::new();
    let mut i: usize = 0;
    while i < steps.len()
        invariant
            i <= steps@.len(),
            stdout@ == all_stdout(steps@.take(i as int)),
            stderr@ == all_stderr(steps@.take(i as int)),
        decreases steps@.len() - i,
    {
        assert(steps@.take(i + 1).drop_last() =~= steps@.take(i as int));
        stdout.append(steps[i].stdout.as_str());
        stderr.append(steps[i].stderr.as_str());
        i = i + 1;
    }
    assert(steps@.take(steps@.len() as int) =~= steps@);
    (stdout, stderr)
}

/// A run of several exchanges, as a whole: the last exchange's exit code and calls, every
/// exchange's output concatenated, and what the whole run changed on disk.
///
/// The journal only grows, so the last exchange's calls are every call the run made.
pub fn gathered(steps: Vec<Observations>, files: Vec<FileEffect>) -> (o: Observations)
    ensures
        o.exit == (if steps@.len() == 0 { 0 } else { steps@.last().exit }),
        o.stdout@ == all_stdout(steps@),
        o.stderr@ == all_stderr(steps@),
        steps@.len() == 0 ==> o.calls@.len() == 0,
        steps@.len() > 0 ==> calls_view(o.calls@) == calls_view(steps@.last().calls@),
        o.files == files,
        o.steps == steps,
        o.status is None,
        o.body@.len() == 0,
        o.headers@.dom().len() == 0,
{
    let (stdout, stderr) = streams(&steps);
    let n = steps.len();
    let exit: i32 = if n == 0 { 0 } else { steps[n - 1].exit };
    let calls = if n == 0 { Vec::new() } else { crate::fake::journal::calls_copied(&steps[n - 1].calls) };
    let mut o = Observations::empty();
    o.exit = exit;
    o.stdout = stdout;
    o.stderr = stderr;
    o.calls = calls;
    o.files = files;
    o.steps = steps;
    o
}

} // verus!
