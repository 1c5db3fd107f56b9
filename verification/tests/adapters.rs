use gaveldrop::adapters::process::{command_line, declared, gathered, step_argv};
use gaveldrop::adapters::shell::{gathered as gathered_calls, shell_program, step_call, strings};
use gaveldrop::adapters::web::{as_text, ready_probe, serve_command};
use gaveldrop::adapters::{FIRST_NAP_MICROS, LONGEST_NAP_MICROS, Process, Shell, Wait, Web, next_wait, select};
use gaveldrop::case::{Case, Step};
use gaveldrop::fake::journal::Call;
use gaveldrop::observations::Observations;
use gaveldrop::strmap::StrMap;
use gaveldrop::value::Value;

fn with_run() -> Case {
    let mut case = Case::default();
    case.name = "t".to_string();
    case.weight = 1;
    case.setup.run = Some(vec!["true".to_string()]);
    case
}

fn with_shell() -> Case {
    let mut case = Case::default();
    case.name = "t".to_string();
    case.weight = 1;
    case.setup.extra.insert("shell".to_string(), Value::String("bash".to_string()));
    case.setup.extra.insert("call".to_string(), Value::Array(vec![Value::String("f".to_string())]));
    case
}

fn claims(case: &Case) -> Vec<bool> {
    vec![Web.claims(case), Shell.claims(case), Process.claims(case)]
}

fn refusal(case: &Case) -> String {
    match select(case, &claims(case)) {
        Ok(_) => panic!("some adapter claimed a case that names neither `run` nor `shell`"),
        Err(error) => error.message(),
    }
}

#[test]
fn a_case_with_run_goes_to_an_adapter_that_takes_a_command_line() {
    let chosen = select(&with_run(), &claims(&with_run())).unwrap();

    assert_eq!(chosen, 2, "the process adapter, last in the registry");
    assert!(Process.claims(&with_run()));
    assert!(!Process.claims(&with_shell()));
}

#[test]
fn a_case_with_shell_goes_to_the_shell_adapter() {
    let chosen = select(&with_shell(), &claims(&with_shell())).unwrap();

    assert_eq!(chosen, 1);
    assert!(Shell.claims(&with_shell()));
    assert!(!Shell.claims(&with_run()));
}

#[test]
fn a_mistyped_key_is_told_which_keys_were_seen() {
    let mut case = with_run();
    case.setup.run = None;
    case.setup.extra.insert("shel".to_string(), Value::String("bash".to_string()));
    case.setup.extra.insert("call".to_string(), Value::Null);
    let message = refusal(&case);

    for expected in ["shel", "call"] {
        assert!(message.contains(expected), "Missing {expected:?} in: {message}");
    }
}

#[test]
fn a_case_claimed_by_no_one_names_the_case_and_says_what_would_work() {
    let mut case = Case::default();
    case.name = "lonely".to_string();
    let message = refusal(&case);

    assert!(message.contains("lonely"));
    assert!(message.contains("run") && message.contains("shell"), "{message}");
    assert!(message.ends_with("setup holds no other key"), "{message}");
}

#[test]
fn a_service_is_claimed_before_a_shell_function() {
    let mut case = with_shell();
    case.setup.extra.insert("serve".to_string(), Value::Null);

    assert_eq!(select(&case, &claims(&case)).unwrap(), 0, "the more specific claim wins");
    assert_eq!(Web.name(), "web");
}

#[test]
fn an_empty_command_line_is_nobody_s_to_run() {
    let mut case = with_run();
    case.setup.run = Some(Vec::new());

    assert!(!Process.claims(&case));
}

#[test]
fn a_subject_that_exited_is_collected() {
    assert_eq!(next_wait(true, 900, 100, FIRST_NAP_MICROS), Wait::Collect);
}

#[test]
fn a_subject_past_its_deadline_is_killed() {
    assert_eq!(next_wait(false, 100, 100, FIRST_NAP_MICROS), Wait::Kill);
}

#[test]
fn the_pause_doubles_up_to_its_ceiling_and_never_passes_the_deadline() {
    assert_eq!(
        next_wait(false, 0, 1_000_000, FIRST_NAP_MICROS),
        Wait::Sleep { micros: 200, next_nap: 400 }
    );
    assert_eq!(
        next_wait(false, 0, 1_000_000, 40_000),
        Wait::Sleep { micros: 40_000, next_nap: LONGEST_NAP_MICROS }
    );
    assert_eq!(
        next_wait(false, 999_900, 1_000_000, 40_000),
        Wait::Sleep { micros: 100, next_nap: LONGEST_NAP_MICROS }
    );
}

fn text(s: &str) -> Value {
    Value::String(s.to_string())
}

fn defined() -> StrMap<String> {
    let mut m = StrMap::new();
    m.insert("GAVELDROP_PORT".to_string(), "40001".to_string());
    m.insert("GAVELDROP_PROJECT".to_string(), "/work".to_string());
    m
}

fn call(bin: &str) -> Call {
    Call {
        bin: bin.to_string(),
        args: vec!["status".to_string()],
        call: 1,
        key: bin.to_string(),
        catch_all: false,
        passthrough: false,
        exit: 0,
    }
}

fn exchange(stdout: &str, exit: i32, calls: Vec<Call>) -> Observations {
    let mut o = Observations::empty();
    o.stdout = stdout.to_string();
    o.stderr = format!("{stdout}!");
    o.exit = exit;
    o.calls = calls;
    o
}

#[test]
fn a_case_with_no_run_is_rejected_by_this_adapter() {
    let mut case = with_run();
    case.setup.run = None;

    let error = declared(&case).unwrap_err();
    assert_eq!(error.message(), "case `t` cannot be invoked by this adapter: setup has no `run` command line");
    assert_eq!(declared(&with_run()).unwrap(), vec!["true".to_string()]);
}

#[test]
fn an_exchange_without_its_own_command_line_repeats_the_cases() {
    let fallback = vec!["./tool".to_string(), "--check".to_string()];
    let mut own = Step::default();
    own.request.insert("run".to_string(), Value::Array(vec![text("./tool"), Value::Null, text("--fix")]));

    assert_eq!(step_argv(&Step::default(), &fallback), fallback);
    assert_eq!(step_argv(&own, &fallback), vec!["./tool".to_string(), "--fix".to_string()]);
}

#[test]
fn a_command_line_names_what_isolation_defines_and_leaves_the_rest() {
    let argv = vec!["curl".to_string(), "localhost:$GAVELDROP_PORT".to_string(), "${X-default}".to_string()];

    assert_eq!(
        command_line(&with_run(), &argv, &defined()).unwrap(),
        vec!["curl".to_string(), "localhost:40001".to_string(), "${X-default}".to_string()]
    );
    assert!(command_line(&with_run(), &[], &defined()).unwrap_err().message().ends_with("setup.run is empty"));
}

#[test]
fn a_run_of_several_processes_reports_the_last_exit_and_the_last_journal() {
    let steps = vec![exchange("one\n", 42, vec![call("git")]), exchange("two\n", 0, vec![call("git"), call("gh")])];

    let whole = gathered(steps, Vec::new());
    assert_eq!(whole.exit, 0, "the last exchange's exit code, even when a middle one failed");
    assert_eq!(whole.stdout, "one\ntwo\n");
    assert_eq!(whole.stderr, "one\n!two\n!");
    assert_eq!(whole.calls.len(), 2);
    assert_eq!(whole.steps.len(), 2);
}

#[test]
fn a_run_of_several_shell_calls_adds_their_journals_up() {
    let steps = vec![exchange("a", 1, vec![call("git")]), exchange("b", 3, vec![call("gh")])];

    let whole = gathered_calls(steps, Vec::new());
    assert_eq!(whole.exit, 3);
    let bins: Vec<String> = whole.calls.iter().map(|c| c.bin.clone()).collect();
    assert_eq!(bins, vec!["git".to_string(), "gh".to_string()]);
}

#[test]
fn a_case_without_a_shell_is_not_this_adapters_business() {
    let error = shell_program(&with_run()).unwrap_err();

    assert!(error.message().ends_with("setup has no `shell` naming the shell to run"));
    assert_eq!(shell_program(&with_shell()).unwrap(), "bash");
    assert_eq!(strings(&with_shell(), "call"), vec!["f".to_string()]);
    assert!(strings(&with_shell(), "source").is_empty());
}

#[test]
fn a_step_names_its_own_call_or_repeats_the_cases() {
    let fallback = vec!["f".to_string()];
    let mut own = Step::default();
    own.request.insert("call".to_string(), Value::Array(vec![text("g"), text("x")]));

    assert_eq!(step_call(&own, &fallback), vec!["g".to_string(), "x".to_string()]);
    assert_eq!(step_call(&Step::default(), &fallback), fallback);
}

#[test]
fn a_service_starts_from_its_own_command_line() {
    let mut case = with_run();
    case.setup.extra.insert("serve".to_string(), Value::Array(vec![text("node"), text("--port=$GAVELDROP_PORT")]));
    case.setup.extra.insert("ready".to_string(), text("http://localhost:$GAVELDROP_PORT/health"));

    assert_eq!(
        serve_command(&case, &defined()).unwrap(),
        vec!["node".to_string(), "--port=40001".to_string()]
    );
    assert_eq!(ready_probe(&case, &defined()).as_deref(), Some("http://localhost:40001/health"));
    assert!(serve_command(&with_run(), &defined()).unwrap_err().message().contains("`serve`"));
    assert_eq!(ready_probe(&with_run(), &defined()), None);
}

#[test]
fn a_captured_string_loses_its_json_quotes() {
    assert_eq!(as_text(&text("order-7")), "order-7");
    assert_eq!(as_text(&Value::Number("42".to_string())), "42");
    assert_eq!(as_text(&Value::Bool(true)), "true");
}
