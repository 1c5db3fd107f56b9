use gaveldrop::case::{Case, Step};
use gaveldrop::config::Config;
use gaveldrop::outcome::{Diff, Outcome, setup_failure};
use gaveldrop::runner::{fold_in_expect_hook, prepared};
use gaveldrop::strmap::StrMap;

fn passing(name: &str) -> Outcome {
    Outcome {
        name: name.to_string(),
        weight: 1,
        allow_fail: false,
        passed: true,
        diffs: Vec::new(),
        unexpected_calls: Vec::new(),
        unmentioned_files: Vec::new(),
        duration_ms: 7,
    }
}

#[test]
fn the_trace_names_the_adapter_and_the_root_first() {
    let note = prepared(&Case::default(), &Config::default(), "/tmp/root", &StrMap::new(), "process");

    assert_eq!(note, vec!["adapter    process".to_string(), "root       /tmp/root".to_string()]);
}

#[test]
fn the_trace_lists_what_is_faked_hidden_set_cleared_and_stepped() {
    let mut case = Case::default();
    case.setup.hide = vec!["git".to_string()];
    case.setup.env.insert("MYTOOL_DIR".to_string(), "$GAVELDROP_PROJECT".to_string());
    case.setup.env.insert("TYPO".to_string(), "x".to_string());
    case.steps = vec![Step::default(), Step::default()];
    let mut config = Config::default();
    config.fake.bins = vec!["git".to_string(), "gh".to_string()];
    config.clear_env = vec!["MYTOOL_CONFIG_DIR".to_string()];
    let mut defined = StrMap::new();
    defined.insert("MYTOOL_DIR".to_string(), "/work".to_string());

    let note = prepared(&case, &config, "/tmp/root", &defined, "shell");

    assert_eq!(
        note[2..],
        [
            "faked      gh".to_string(),
            "hidden     git (and everything else in the directories that held them)".to_string(),
            "env        MYTOOL_DIR=/work TYPO=(unresolved)".to_string(),
            "cleared    MYTOOL_CONFIG_DIR".to_string(),
            "steps      2".to_string(),
        ]
    );
}

#[test]
fn a_hook_that_reports_diffs_fails_the_case() {
    let diff = Diff { path: "expect.exec".to_string(), expected: "x".to_string(), got: "y".to_string() };
    let outcome = fold_in_expect_hook(passing("a"), Ok(vec![diff]));

    assert!(!outcome.passed);
    assert_eq!(outcome.diffs.len(), 1);
    assert_eq!(outcome.duration_ms, 7);
}

#[test]
fn a_hook_that_cannot_report_is_a_diff_where_the_case_declared_it() {
    let outcome = fold_in_expect_hook(passing("a"), Err("the hook crashed".to_string()));

    assert!(!outcome.passed);
    assert_eq!(outcome.diffs[0].path, "expect.exec");
    assert_eq!(outcome.diffs[0].expected, "a working hook");
    assert_eq!(outcome.diffs[0].got, "the hook crashed");
}

#[test]
fn a_hook_with_nothing_to_say_keeps_a_passing_case_passing() {
    assert!(fold_in_expect_hook(passing("a"), Ok(Vec::new())).passed);
}

#[test]
fn a_failed_setup_stays_failed_whatever_the_hook_says() {
    let outcome = fold_in_expect_hook(setup_failure("a", 1, "no".to_string()), Ok(Vec::new()));

    assert!(!outcome.passed);
}
