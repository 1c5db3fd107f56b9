use gaveldrop::iso::snapshot::{FileChange, FileEffect};
use gaveldrop::adapters::Ledger;
use gaveldrop::conformance::{Check, ConformanceReport, Finding};
use gaveldrop::fake::journal::Call;
use gaveldrop::fake::rule::{Match, Response, Rule, Scenario};
use gaveldrop::fake::serve::{refuse_unsupported, request_invocation};
use gaveldrop::outcome::setup_failure;
use gaveldrop::report::Report;
use gaveldrop::report::sources::Located;

fn journal_of(bins: &[&str]) -> Vec<Call> {
    bins.iter()
        .map(|bin| Call {
            bin: bin.to_string(),
            args: Vec::new(),
            call: 1,
            key: bin.to_string(),
            catch_all: false,
            passthrough: false,
            exit: 0,
        })
        .collect()
}

#[test]
fn each_exchange_sees_only_the_calls_it_added() {
    let mut ledger = Ledger::new();

    let mut first = journal_of(&["git"]);
    ledger.only_the_new(&mut first);
    assert_eq!(first.len(), 1);

    let mut second = journal_of(&["git", "git", "gh"]);
    ledger.only_the_new(&mut second);
    let bins: Vec<String> = second.into_iter().map(|call| call.bin).collect();
    assert_eq!(bins, vec!["git".to_string(), "gh".to_string()], "the journal only grows; the first call was the first exchange's");

    let mut shorter = journal_of(&["git"]);
    ledger.only_the_new(&mut shorter);
    assert!(shorter.is_empty(), "a journal shorter than the last is cut to nothing rather than refused");
}

#[test]
fn a_kit_report_is_conformant_only_when_every_check_held() {
    let check = Check { name: "exit_code_is_reported", why: "a verdict reads it" };
    let held = Finding { check: check.clone(), held: true, detail: "42".to_string() };
    let broken = Finding { check, held: false, detail: "0".to_string() };

    assert!(ConformanceReport { findings: vec![held.clone()] }.is_conformant());
    assert!(!ConformanceReport { findings: vec![held, broken] }.is_conformant());
    assert!(ConformanceReport { findings: Vec::new() }.is_conformant());
}

#[test]
fn the_http_door_refuses_what_only_the_binary_door_can_do() {
    let mut delegating = Response::default();
    delegating.exec_target = Some("real".to_string());
    let scenario = Scenario { render: None, rules: vec![Rule { matcher: Match::default(), response: delegating }] };

    let message = refuse_unsupported(&scenario).unwrap_err().message();
    assert!(message.starts_with("the HTTP door cannot honour `exec: real`"), "{message}");

    let rendered = Scenario { render: Some("./render.sh".to_string()), rules: Vec::new() };
    assert!(refuse_unsupported(&rendered).unwrap_err().message().contains("`render`"));

    let plain = Scenario { render: None, rules: vec![Rule { matcher: Match::default(), response: Response::default() }] };
    assert!(refuse_unsupported(&plain).is_ok());
}

#[test]
fn a_request_reads_as_a_call_to_its_path() {
    let inv = request_invocation("POST", "/orders?limit=2", "{}".to_string());

    assert_eq!(inv.bin, "/orders");
    assert_eq!(inv.args, vec!["POST".to_string(), "limit=2".to_string()]);
    assert_eq!(inv.stdin, "{}");

    let bare = request_invocation("GET", "/health", String::new());
    assert_eq!(bare.bin, "/health");
    assert_eq!(bare.args, vec!["GET".to_string()]);
}

#[test]
fn a_located_assertion_reads_as_path_and_line() {
    let at = Located { path: "tests/cases/a.yaml".to_string(), line: 12 };

    assert_eq!(at.reference(), "tests/cases/a.yaml:12");
}

#[test]
fn a_report_keeps_its_outcomes_in_order() {
    let report = Report::from_outcomes(vec![
        setup_failure("b", 1, "x".to_string()),
        setup_failure("a", 2, "y".to_string()),
    ]);

    let names: Vec<String> = report.outcomes.iter().map(|o| o.name.clone()).collect();
    assert_eq!(names, vec!["b".to_string(), "a".to_string()]);
}

#[test]
fn what_the_ledger_hands_out_adds_up_to_the_whole_journal() {
    let journals = [journal_of(&["git"]), journal_of(&["git", "gh", "gh"]), journal_of(&["git", "gh", "gh", "kubectl"])];
    let mut ledger = Ledger::new();
    let mut handed: Vec<String> = Vec::new();
    for journal in &journals {
        let mut seen = journal.clone();
        ledger.only_the_new(&mut seen);
        handed.extend(seen.into_iter().map(|call| call.bin));
    }

    let whole: Vec<String> = journals[2].iter().map(|call| call.bin.clone()).collect();
    assert_eq!(handed, whole, "no call lost, none counted for two exchanges");
}

#[test]
fn the_conformance_case_runs_its_command_line_and_nothing_else() {
    let case = gaveldrop::conformance::conformance_case(&["sh", "-c", "exit 7"]);

    assert_eq!(case.name, "conformance");
    assert_eq!(case.setup.run, Some(vec!["sh".to_string(), "-c".to_string(), "exit 7".to_string()]));
    assert!(case.fake.is_none());
}

#[test]
fn each_check_reads_one_thing_off_what_came_back() {
    let mut seen = gaveldrop::observations::Observations::empty();
    seen.exit = 7;
    seen.stdout = "out\n".to_string();
    seen.stderr = "err\n".to_string();
    assert_eq!(gaveldrop::conformance::exit_verdict(&seen), (true, "exit was 7".to_string()));
    assert_eq!(gaveldrop::conformance::streams_verdict(&seen), (true, "stdout \"out\", stderr \"err\"".to_string()));

    seen.stdout = "  /tmp/root\n".to_string();
    assert_eq!(
        gaveldrop::conformance::home_verdict(&seen, "/tmp/root"),
        (true, "the subject saw HOME=\"/tmp/root\"".to_string())
    );
    assert!(!gaveldrop::conformance::cleared_verdict(&seen).0);

    seen.stdout = "absent".to_string();
    assert!(gaveldrop::conformance::cleared_verdict(&seen).0);
}

#[test]
fn a_file_check_counts_a_path_only_when_it_ends_in_the_written_file() {
    let mut seen = gaveldrop::observations::Observations::empty();
    seen.files = vec![FileEffect { path: "xwritten.txt".to_string(), change: FileChange::Created, size: 1, content: None }];
    assert_eq!(gaveldrop::conformance::files_verdict(&seen), (false, "1 file effects reported".to_string()));

    seen.files.push(FileEffect { path: "sub/written.txt".to_string(), change: FileChange::Created, size: 5, content: None });
    assert!(gaveldrop::conformance::files_verdict(&seen).0);
}
