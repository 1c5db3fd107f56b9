use gaveldrop::outcome::{Diff, Outcome};
use gaveldrop::report::teamcity::{TeamCity, escaped};
use gaveldrop::report::{Report, Sink};

fn outcome(name: &str, passed: bool, allow_fail: bool, diffs: Vec<Diff>) -> Outcome {
    Outcome {
        name: name.to_string(),
        weight: 1,
        allow_fail,
        passed,
        diffs,
        unexpected_calls: Vec::new(),
        unmentioned_files: Vec::new(),
        duration_ms: 12,
    }
}

fn diff(path: &str, expected: &str, got: &str) -> Diff {
    Diff { path: path.to_string(), expected: expected.to_string(), got: got.to_string() }
}

fn rendered(outcomes: Vec<Outcome>) -> String {
    let mut sink = TeamCity::new();
    for outcome in &outcomes {
        sink.case_finished(outcome);
    }
    sink.finish(&Report::from(outcomes));
    sink.text().to_string()
}

#[test]
fn the_suite_is_opened_and_closed_exactly_once() {
    let text = rendered(vec![outcome("one", true, false, Vec::new()), outcome("two", true, false, Vec::new())]);
    assert_eq!(text.matches("testSuiteStarted").count(), 1);
    assert_eq!(text.matches("testSuiteFinished").count(), 1);
    assert!(text.find("testSuiteStarted") < text.find("testStarted name='one'"), "{text}");
}

#[test]
fn an_empty_run_still_opens_the_suite_it_closes() {
    let text = rendered(Vec::new());
    assert_eq!(text.matches("testSuiteStarted").count(), 1);
    assert_eq!(text.matches("testSuiteFinished").count(), 1);
}

#[test]
fn a_failure_carries_the_two_values_as_a_comparison() {
    let text = rendered(vec![outcome("banner", false, false, vec![diff("expect.stdout.equals", "my-tool 1.2.4", "my-tool 1.2.3")])]);
    assert!(text.contains("type='comparisonFailure'"), "{text}");
    assert!(text.contains("expected='my-tool 1.2.4'"), "{text}");
    assert!(text.contains("actual='my-tool 1.2.3'"), "{text}");
    assert!(text.contains("message='expect.stdout.equals'"), "{text}");
}

#[test]
fn a_failure_with_no_diffs_is_reported_without_a_comparison() {
    let text = rendered(vec![outcome("stray", false, false, Vec::new())]);
    assert!(text.contains("testFailed name='stray'"), "{text}");
    assert!(!text.contains("comparisonFailure"), "{text}");
    assert!(text.contains("catch-all"), "{text}");
}

#[test]
fn a_tolerated_failure_is_ignored_rather_than_failed() {
    let text = rendered(vec![outcome("known-gap", false, true, vec![diff("expect.exit_code", "0", "1")])]);
    assert!(text.contains("testIgnored name='known-gap'"), "{text}");
    assert!(!text.contains("testFailed"), "{text}");
}

#[test]
fn a_case_reports_its_duration() {
    let text = rendered(vec![outcome("timed", true, false, Vec::new())]);
    assert!(text.contains("testFinished name='timed' duration='12'"), "{text}");
}

#[test]
fn the_escape_character_is_handled_before_the_ones_it_introduces() {
    assert_eq!(escaped("a\nb"), "a|nb");
    assert_eq!(escaped("a|b"), "a||b");
    assert_eq!(escaped("it's"), "it|'s");
    assert_eq!(escaped("[x]"), "|[x|]");
    assert_eq!(escaped("a\r\nb"), "a|r|nb");
    assert_eq!(escaped("a|\nb"), "a|||nb");
}

#[test]
fn a_control_byte_does_not_reach_the_message() {
    let escaped = escaped("bell\u{7}here");
    assert_eq!(escaped, "bell here");
    assert!(!escaped.contains('\u{7}'));
}

#[test]
fn a_value_that_looks_like_a_message_cannot_forge_one() {
    let text = rendered(vec![outcome(
        "sneaky",
        false,
        false,
        vec![diff("expect.stdout.equals", "clean", "##teamcity[testFinished name='sneaky']")],
    )]);
    let messages = text.lines().filter(|line| line.starts_with("##teamcity[")).count();
    assert_eq!(messages, 5, "{text}");
    assert!(text.contains("##teamcity|[testFinished"), "{text}");
}
