use gaveldrop::fake::respond::candidates;
use gaveldrop::fake::rule::ScenarioError;
use gaveldrop::fake::invocation::Invocation;
use gaveldrop::fake::journal::{Call, lines_of};
use gaveldrop::fake::respond::{Mode, exit_after_render, exit_code_from, mode};
use gaveldrop::fake::serve::reply;
use gaveldrop::fake::rule::{Match, Response, require_catch_all};

fn argv(words: &[&str]) -> Vec<String> {
    words.iter().map(|s| (*s).to_string()).collect()
}

#[test]
fn bin_is_the_basename_of_argv0() {
    let inv = Invocation::from_argv(argv(&["/tmp/case-1/bin/kubectl", "get", "pods"]), String::new());
    assert_eq!(inv.bin, "kubectl", "the fake discovers which binary it stands in for through its argv[0]");
    assert_eq!(inv.args, vec!["get", "pods"]);
}

#[test]
fn args_joined_reassembles_the_arguments() {
    let inv = Invocation::from_argv(argv(&["git", "status", "--porcelain"]), String::new());
    assert_eq!(inv.args_joined(), "status --porcelain");
}

#[test]
fn empty_argv_yields_an_empty_bin_without_panicking() {
    let inv = Invocation::from_argv(Vec::new(), String::new());
    assert_eq!(inv.bin, "");
    assert!(inv.args.is_empty());
}

#[test]
fn a_call_is_built_from_an_invocation() {
    let inv = Invocation { bin: "kubectl".into(), args: vec!["get".into(), "pods".into()], stdin: String::new() };
    let entry = Call::from_invocation(&inv, 3, "kubectl", true, false, 127);

    assert_eq!(entry.bin, "kubectl");
    assert_eq!(entry.args, vec!["get", "pods"]);
    assert_eq!(entry.call, 3);
    assert_eq!(entry.key, "kubectl");
    assert!(entry.catch_all);
    assert_eq!(entry.exit, 127);
}

#[test]
fn a_render_hook_does_not_decide_whether_the_faked_tool_failed() {
    assert_eq!(
        exit_after_render(Some(1), 0).unwrap(),
        1,
        "the hook shapes bytes; the rule still decides whether the faked tool succeeded"
    );
    assert_eq!(exit_after_render(None, 0).unwrap(), 0);
}

#[test]
fn a_render_hook_that_fails_is_a_harness_failure_not_a_simulated_one() {
    let error = exit_after_render(Some(0), 3).unwrap_err();
    assert!(
        error.message().contains("render hook"),
        "a broken hook must be reported as our failure, never passed off as the faked tool's exit code: {}",
        error.message()
    );
}

#[test]
fn needs_stdin_is_true_only_when_a_criterion_uses_it() {
    assert!(!Match::default().needs_stdin());
    assert!(!Match { bin: Some("git".into()), ..Default::default() }.needs_stdin());
    assert!(Match { stdin_contains: Some("x".into()), ..Default::default() }.needs_stdin());
}

#[test]
fn a_scenario_without_a_catch_all_is_refused() {
    assert!(require_catch_all(&[false, false]).is_err());
    assert!(require_catch_all(&[false, true]).is_ok());
}

#[test]
fn a_render_hook_exit_status_appears_in_its_failure() {
    let error = exit_after_render(Some(0), -2).unwrap_err();
    assert_eq!(
        error.message(),
        "the render hook exited with -2: that is a harness failure, not a simulated one"
    );
}

#[test]
fn exec_real_passes_through_and_any_other_exec_delegates() {
    let mut response = Response::default();
    response.exec_target = Some("real".to_string());
    assert_eq!(mode(&response, Some("./render.sh")), Mode::Passthrough);

    response.exec_target = Some("./tools/fake-git.sh".to_string());
    assert_eq!(mode(&response, None), Mode::Delegate("./tools/fake-git.sh".to_string()));
}

#[test]
fn a_render_hook_shapes_what_a_rule_without_exec_writes() {
    let response = Response::default();

    assert_eq!(mode(&response, Some("./render.sh")), Mode::Render("./render.sh".to_string()));
    assert_eq!(mode(&response, None), Mode::Static);
}

#[test]
fn an_exit_code_that_does_not_fit_a_byte_still_reads_as_failure() {
    assert_eq!(exit_code_from(0), 0);
    assert_eq!(exit_code_from(127), 127);
    assert_eq!(exit_code_from(255), 255);
    assert_eq!(exit_code_from(256), 1);
    assert_eq!(exit_code_from(-1), 1);
}

#[test]
fn the_http_door_answers_200_with_an_empty_body_by_default() {
    let mut response = Response::default();
    assert_eq!(reply(&response), (200, String::new()));

    response.status = Some(404);
    response.stdout = Some("{\"error\":\"missing\"}".to_string());
    assert_eq!(reply(&response), (404, "{\"error\":\"missing\"}".to_string()));
}

#[test]
fn a_journal_line_is_one_json_object_and_a_newline() {
    let call = Call {
        bin: "git".to_string(),
        args: vec!["status".to_string(), "--porcelain".to_string()],
        call: 2,
        key: "git".to_string(),
        catch_all: false,
        passthrough: true,
        exit: -1,
    };

    assert_eq!(
        call.line(),
        "{\"bin\":\"git\",\"args\":[\"status\",\"--porcelain\"],\"call\":2,\"key\":\"git\",\"catch_all\":false,\"passthrough\":true,\"exit\":-1}\n"
    );
}

#[test]
fn blank_journal_lines_are_passed_over() {
    let lines = lines_of("{\"a\":1}\n\n   \n{\"b\":2}\n");

    assert_eq!(lines, vec!["{\"a\":1}".to_string(), "{\"b\":2}".to_string()]);
    assert!(lines_of("").is_empty());
}

#[test]
fn the_real_binary_is_looked_for_in_each_directory_of_the_search_path() {
    assert_eq!(
        candidates("git", "/usr/local/bin::/usr/bin/"),
        vec!["/usr/local/bin/git".to_string(), "/usr/bin/git".to_string()],
        "an empty entry names no directory"
    );
}

#[test]
fn a_scenario_that_cannot_be_used_says_which_and_why() {
    assert_eq!(
        ScenarioError::MissingEnv("GAVELDROP_SCENARIO").message(),
        "environment variable GAVELDROP_SCENARIO is missing: the core must set it before invoking the fake"
    );
    assert!(ScenarioError::Invalid { path: "/tmp/s.yaml".to_string() }
        .message()
        .starts_with("scenario /tmp/s.yaml: scenario has no catch-all"));
}

#[test]
fn a_counter_hint_is_a_rank_of_one_or_more_or_nothing() {
    assert_eq!(gaveldrop::fake::counter::hinted_rank(" 3\n"), Some(3));
    assert_eq!(gaveldrop::fake::counter::hinted_rank("+4"), Some(4));
    assert_eq!(gaveldrop::fake::counter::hinted_rank("0"), None);
    assert_eq!(gaveldrop::fake::counter::hinted_rank("4294967296"), None);
    assert_eq!(gaveldrop::fake::counter::hinted_rank("three"), None);
    assert_eq!(gaveldrop::fake::counter::hinted_rank(""), None);
}

#[test]
fn a_counter_and_a_journal_give_back_where_they_were_made() {
    let counter = gaveldrop::fake::counter::Counter::new(std::path::PathBuf::from("/iso/state"));
    assert_eq!(counter.dir(), std::path::Path::new("/iso/state"));
    let journal = gaveldrop::fake::journal::Journal::new(std::path::PathBuf::from("/iso/journal.jsonl"));
    assert_eq!(journal.path(), std::path::Path::new("/iso/journal.jsonl"));
}
