use gaveldrop::case::Case;
use gaveldrop::hooks::{HookError, refuse_on_failure, setup_payload};
use gaveldrop::value::Value;

#[test]
fn a_hook_that_exits_non_zero_fails_the_case_with_its_stderr() {
    let error = refuse_on_failure("setup", "./broken.sh", false, Some(4), "cannot render the template\n")
        .unwrap_err();

    assert!(error.message().contains("cannot render the template"));
    assert!(error.message().contains('4'), "the exit code belongs in the message: {}", error.message());
    assert_eq!(
        error.message(),
        "the setup hook `./broken.sh` exited with 4: cannot render the template"
    );
}

#[test]
fn a_hook_that_succeeds_is_not_refused() {
    assert!(refuse_on_failure("setup", "./fine.sh", true, Some(0), "noise").is_ok());
}

#[test]
fn a_hook_killed_by_a_signal_reports_minus_one() {
    match refuse_on_failure("expect", "./judge.sh", false, None, "") {
        Err(HookError::Refused { code, which, .. }) => {
            assert_eq!(code, -1);
            assert_eq!(which, "expect");
        }
        other => panic!("expected a refusal, got {other:?}"),
    }
}

#[test]
fn the_hook_receives_the_setup_block_as_json() {
    let mut case = Case::default();
    case.setup.run = Some(vec!["node".to_string(), "bin/sync.js".to_string()]);
    case.setup.hook = Some("./prepare.sh".to_string());
    case.setup.extra.insert("pattern".to_string(), Value::String("ring".to_string()));
    case.setup.extra.insert(
        "agents".to_string(),
        Value::Array(vec![Value::String("alpha".to_string()), Value::String("bravo".to_string())]),
    );
    case.setup.extra.insert("zeta".to_string(), Value::Number("3".to_string()));

    assert_eq!(
        setup_payload(&case),
        r#"{"agents":["alpha","bravo"],"pattern":"ring","run":["node","bin/sync.js"],"zeta":3}"#,
        "keys in order, the command line among them, and never the hook's own path"
    );
}

#[test]
fn a_setup_block_with_nothing_opaque_is_an_empty_object() {
    assert_eq!(setup_payload(&Case::default()), "{}");
}

#[test]
fn the_hook_is_never_told_its_own_path() {
    let mut a = Case::default();
    a.setup.run = Some(vec!["true".to_string()]);
    a.setup.extra.insert("pattern".to_string(), Value::String("ring".to_string()));
    let mut b = Case::default();
    b.setup.run = Some(vec!["true".to_string()]);
    b.setup.extra.insert("pattern".to_string(), Value::String("ring".to_string()));
    b.setup.hook = Some("./tests/prepare.sh".to_string());

    assert_eq!(setup_payload(&a), setup_payload(&b));
    assert!(!setup_payload(&b).contains("prepare.sh"));
}
