//! The battery every adapter must pass to prove it honours the contract: what a check found, and
//! how the findings read.

use vstd::prelude::*;
use crate::case::Case;
use crate::config::{debug_quoted, quoted};
use crate::fake::journal::Call;
use crate::iso::snapshot::FileEffect;
use crate::observations::Observations;
use crate::text::{decimal, ends, has, joined, signed_decimal, trimmed, views};

verus! {

/// One thing an adapter must do.
#[derive(Debug, Clone, Copy)]
pub struct Check {
    /// Short identifier, stable enough to grep for.
    pub name: &'static str,
    /// What it protects, in a sentence a third party can act on.
    pub why: &'static str,
}

/// What one check found.
#[derive(Debug, Clone)]
pub struct Finding {
    /// The check that ran.
    pub check: Check,
    /// Whether it held.
    pub held: bool,
    /// What was observed, whether it held or not.
    pub detail: String,
}

/// Everything the kit found.
#[derive(Debug, Clone)]
pub struct ConformanceReport {
    /// One finding per check, in the order they ran.
    pub findings: Vec<Finding>,
}

/// The line a failing finding reads as: the check, why it exists, and what was seen.
pub open spec fn failure_line(f: Finding) -> Seq<char> {
    "FAIL "@ + f.check.name@ + "\n     why  "@ + f.check.why@ + "\n     got  "@ + f.detail@
}

/// The line a holding finding reads as.
pub open spec fn success_line(f: Finding) -> Seq<char> {
    "ok   "@ + f.check.name@
}

/// The lines of the findings that did not hold, in order.
pub open spec fn failure_lines_of(fs: Seq<Finding>) -> Seq<Seq<char>>
    decreases fs.len(),
{
    if fs.len() == 0 {
        Seq::empty()
    } else if !fs.last().held {
        failure_lines_of(fs.drop_last()).push(failure_line(fs.last()))
    } else {
        failure_lines_of(fs.drop_last())
    }
}

/// The lines of the findings that held, in order.
pub open spec fn success_lines_of(fs: Seq<Finding>) -> Seq<Seq<char>>
    decreases fs.len(),
{
    if fs.len() == 0 {
        Seq::empty()
    } else if fs.last().held {
        success_lines_of(fs.drop_last()).push(success_line(fs.last()))
    } else {
        success_lines_of(fs.drop_last())
    }
}

impl ConformanceReport {
    /// Whether every check held.
    pub fn is_conformant(&self) -> (b: bool)
        ensures
            b == forall|i: int| 0 <= i < self.findings@.len() ==> (#[trigger] self.findings@[i]).held,
    {
        let mut i: usize = 0;
        while i < self.findings.len()
            invariant
                i <= self.findings@.len(),
                forall|j: int| 0 <= j < i ==> (#[trigger] self.findings@[j]).held,
            decreases self.findings@.len() - i,
        {
            if !self.findings[i].held {
                return false;
            }
            i = i + 1;
        }
        true
    }

    /// The findings as readable lines, failures first, each with the reason it exists.
    pub fn render(&self) -> (text: String)
        ensures
            text@ == joined(
                failure_lines_of(self.findings@) + success_lines_of(self.findings@),
                "\n"@,
            ),
    {
        let mut failures: Vec<String> = Vec::new();
        let mut passes: Vec<String> = Vec::new();
        let mut i: usize = 0;
        while i < self.findings.len()
            invariant
                i <= self.findings@.len(),
                crate::text::views(failures@) == failure_lines_of(self.findings@.take(i as int)),
                crate::text::views(passes@) == success_lines_of(self.findings@.take(i as int)),
            decreases self.findings@.len() - i,
        {
            let f = &self.findings[i];
            assert(self.findings@.take(i + 1).drop_last() =~= self.findings@.take(i as int));
            if !f.held {
                let mut line = String::from_str("FAIL ");
                line.append(f.check.name);
                line.append("\n     why  ");
                line.append(f.check.why);
                line.append("\n     got  ");
                line.append(f.detail.as_str());
                let ghost before = failures@;
                failures.push(line);
                assert(crate::text::views(failures@) =~= crate::text::views(before).push(line@));
            } else {
                let mut line = String::from_str("ok   ");
                line.append(f.check.name);
                let ghost before = passes@;
                passes.push(line);
                assert(crate::text::views(passes@) =~= crate::text::views(before).push(line@));
            }
            i = i + 1;
        }
        assert(self.findings@.take(self.findings@.len() as int) =~= self.findings@);
        let ghost fl = failures@;
        failures.append(&mut passes);
        assert(crate::text::views(failures@) =~= failure_lines_of(self.findings@) + success_lines_of(
            self.findings@,
        ));
        crate::text::join(&failures, "\n")
    }
}

/// A finding for a check that could not even run.
pub fn refused(check: Check, detail: &str) -> (f: Finding)
    ensures
        f.check == check,
        !f.held,
        f.detail@ == "the adapter could not run the case: "@ + detail@,
{
    let mut text = String::from_str("the adapter could not run the case: ");
    text.append(detail);
    Finding { check, held: false, detail: text }
}

/// Turns an observation, or the failure to get one, into a finding.
///
/// No check can report `held: true` on an adapter that errored: that is the one mistake that would
/// let the kit certify something broken.
pub fn finding<F: FnOnce(&Observations) -> (bool, String)>(
    check: Check,
    observed: Result<Observations, String>,
    verdict: F,
) -> (f: Finding)
    requires
        forall|o: &Observations| verdict.requires((o,)),
    ensures
        f.check == check,
        observed matches Err(d) ==> !f.held && f.detail@ == "the adapter could not run the case: "@ + d@,
        observed matches Ok(seen) ==> verdict.ensures((&seen,), (f.held, f.detail)),
{
    match observed {
        Err(detail) => refused(check, detail.as_str()),
        Ok(seen) => {
            let (held, detail) = verdict(&seen);
            Finding { check, held, detail }
        },
    }
}

/// The case a check runs: a command line, and nothing else to prepare.
pub fn conformance_case(argv: &[&str]) -> (case: Case)
    ensures
        case.name@ == "conformance"@,
        case.weight == 1,
        !case.allow_fail,
        case.setup.run matches Some(run) && run@.len() == argv@.len()
            && forall|i: int| 0 <= i < argv@.len() ==> (#[trigger] run@[i])@ == argv@[i]@,
        case.setup.hook is None,
        case.setup.env.pairs().len() == 0,
        case.setup.hide@.len() == 0,
        case.setup.extra.pairs().len() == 0,
        case.fake is None,
        case.steps@.len() == 0,
{
    let mut run: Vec<String> = Vec::new();
    let mut i: usize = 0;
    while i < argv.len()
        invariant
            i <= argv@.len(),
            run@.len() == i,
            forall|j: int| 0 <= j < i ==> (#[trigger] run@[j])@ == argv@[j]@,
        decreases argv@.len() - i,
    {
        run.push(String::from_str(argv[i]));
        i = i + 1;
    }
    let mut case = Case::default();
    case.name = String::from_str("conformance");
    case.weight = 1;
    case.setup.run = Some(run);
    case
}

/// The check that the exit code is reported.
pub fn exit_code_is_reported() -> (c: Check)
    ensures
        c.name@ == "exit_code_is_reported"@,
        c.why@ == "every expectation on exit_code rests on this; an adapter that always reports zero would make every case pass"@,
{
    Check {
        name: "exit_code_is_reported",
        why: "every expectation on exit_code rests on this; an adapter that always reports zero would make every case pass",
    }
}

/// The check that both streams are reported, each apart.
pub fn both_streams_are_reported() -> (c: Check)
    ensures
        c.name@ == "both_streams_are_reported"@,
        c.why@ == "stdout and stderr are separate assertions; an adapter that merges them would make an `absent` expectation on one silently read the other"@,
{
    Check {
        name: "both_streams_are_reported",
        why: "stdout and stderr are separate assertions; an adapter that merges them would make an `absent` expectation on one silently read the other",
    }
}

/// The check that the subject's home is the isolated root.
pub fn the_home_directory_is_the_isolated_one() -> (c: Check)
    ensures
        c.name@ == "the_home_directory_is_the_isolated_one"@,
        c.why@ == "this is the load-bearing invariant: an adapter that lets the subject see the real home makes the suite corrupt the configuration of whoever runs it"@,
{
    Check {
        name: "the_home_directory_is_the_isolated_one",
        why: "this is the load-bearing invariant: an adapter that lets the subject see the real home makes the suite corrupt the configuration of whoever runs it",
    }
}

/// The check that a variable the project clears never reaches the subject.
pub fn a_cleared_variable_does_not_reach_the_subject() -> (c: Check)
    ensures
        c.name@ == "a_cleared_variable_does_not_reach_the_subject"@,
        c.why@ == "a project reading its own config variable before HOME would escape isolation entirely if that variable survived"@,
{
    Check {
        name: "a_cleared_variable_does_not_reach_the_subject",
        why: "a project reading its own config variable before HOME would escape isolation entirely if that variable survived",
    }
}

/// The check that the files a subject writes are reported.
pub fn files_written_are_reported() -> (c: Check)
    ensures
        c.name@ == "files_written_are_reported"@,
        c.why@ == "the `files` family exists because some bugs appear in no output at all; an adapter that reports no file effects makes those assertions vacuous"@,
{
    Check {
        name: "files_written_are_reported",
        why: "the `files` family exists because some bugs appear in no output at all; an adapter that reports no file effects makes those assertions vacuous",
    }
}

/// The check that an unforeseen call reaches the fake's catch-all.
pub fn an_unexpected_call_reaches_the_catch_all() -> (c: Check)
    ensures
        c.name@ == "an_unexpected_call_reaches_the_catch_all"@,
        c.why@ == "the catch-all is what turns an unforeseen call into a failure instead of silence; an adapter that does not put the fake first on PATH makes every case call the real tool"@,
{
    Check {
        name: "an_unexpected_call_reaches_the_catch_all",
        why: "the catch-all is what turns an unforeseen call into a failure instead of silence; an adapter that does not put the fake first on PATH makes every case call the real tool",
    }
}

/// Whether the subject's exit code came back: the check runs `exit 7`.
pub fn exit_verdict(seen: &Observations) -> (r: (bool, String))
    ensures
        r.0 == (seen.exit == 7),
        r.1@ == "exit was "@ + signed_decimal(seen.exit as int),
{
    let mut detail = String::from_str("exit was ");
    detail.append(crate::text::signed_decimal_string(seen.exit as i64).as_str());
    (seen.exit == 7, detail)
}

/// Whether each stream came back on its own: the check writes `out` to one and `err` to the other.
pub fn streams_verdict(seen: &Observations) -> (r: (bool, String))
    ensures
        r.0 == (has(seen.stdout@, "out"@) && has(seen.stderr@, "err"@) && !(has(seen.stdout@, "err"@))),
        r.1@ == "stdout "@ + debug_quoted(trimmed(seen.stdout@)) + ", stderr "@ + debug_quoted(trimmed(seen.stderr@)),
{
    let held = crate::text::contains(seen.stdout.as_str(), "out") && crate::text::contains(seen.stderr.as_str(), "err")
        && !crate::text::contains(seen.stdout.as_str(), "err");
    let mut detail = String::from_str("stdout ");
    detail.append(quoted(crate::text::trim(seen.stdout.as_str()).as_str()).as_str());
    detail.append(", stderr ");
    detail.append(quoted(crate::text::trim(seen.stderr.as_str()).as_str()).as_str());
    (held, detail)
}

/// Whether the subject saw the isolated root as its home: the check prints `$HOME`.
pub fn home_verdict(seen: &Observations, expected: &str) -> (r: (bool, String))
    ensures
        r.0 == (trimmed(seen.stdout@) == expected@),
        r.1@ == "the subject saw HOME="@ + debug_quoted(trimmed(seen.stdout@)),
{
    let saw = crate::text::trim(seen.stdout.as_str());
    let held = crate::order::same(saw.as_str(), expected);
    let mut detail = String::from_str("the subject saw HOME=");
    detail.append(quoted(saw.as_str()).as_str());
    (held, detail)
}

/// Whether a cleared variable stayed away: the check prints it, or `absent` when it is unset.
pub fn cleared_verdict(seen: &Observations) -> (r: (bool, String))
    ensures
        r.0 == (trimmed(seen.stdout@) == "absent"@),
        r.1@ == "the subject saw "@ + debug_quoted(trimmed(seen.stdout@)),
{
    let saw = crate::text::trim(seen.stdout.as_str());
    let held = crate::order::same(saw.as_str(), "absent");
    let mut detail = String::from_str("the subject saw ");
    detail.append(quoted(saw.as_str()).as_str());
    (held, detail)
}

/// A path names the file `name` as its last component.
pub open spec fn names_file(path: Seq<char>, name: Seq<char>) -> bool {
    path == name || ends(path, "/"@ + name)
}

/// Whether the file the check writes, `written.txt`, was reported.
pub fn files_verdict(seen: &Observations) -> (r: (bool, String))
    ensures
        r.0 == exists|i: int| 0 <= i < seen.files@.len() && names_file((#[trigger] seen.files@[i]).path@, "written.txt"@),
        r.1@ == decimal(seen.files@.len()) + " file effects reported"@,
{
    let mut held = false;
    let mut i: usize = 0;
    while i < seen.files.len()
        invariant
            i <= seen.files@.len(),
            held == exists|j: int| 0 <= j < i && names_file((#[trigger] seen.files@[j]).path@, "written.txt"@),
        decreases seen.files@.len() - i,
    {
        let path = seen.files[i].path.as_str();
        let named = crate::order::same(path, "written.txt") || crate::text::ends_with(path, "/written.txt");
        proof {
            reveal_strlit("/written.txt");
            reveal_strlit("written.txt");
            reveal_strlit("/");
            assert("/"@ + "written.txt"@ =~= "/written.txt"@);
        }
        if named {
            held = true;
        }
        i = i + 1;
    }
    let mut detail = crate::text::decimal_string(seen.files.len() as u64);
    detail.append(" file effects reported");
    (held, detail)
}

/// Whether an unforeseen call reached the catch-all.
pub fn catch_all_verdict(seen: &Observations) -> (r: (bool, String))
    ensures
        r.0 == exists|i: int| 0 <= i < seen.calls@.len() && (#[trigger] seen.calls@[i]).catch_all,
        r.1@ == decimal(seen.calls@.len()) + " calls journaled"@,
{
    let mut held = false;
    let mut i: usize = 0;
    while i < seen.calls.len()
        invariant
            i <= seen.calls@.len(),
            held == exists|j: int| 0 <= j < i && (#[trigger] seen.calls@[j]).catch_all,
        decreases seen.calls@.len() - i,
    {
        if seen.calls[i].catch_all {
            held = true;
        }
        i = i + 1;
    }
    let mut detail = crate::text::decimal_string(seen.calls.len() as u64);
    detail.append(" calls journaled");
    (held, detail)
}

} // verus!
