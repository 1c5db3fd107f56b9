use gaveldrop::case::{Case, CaseError, FakeKeys, RuleKeys, accepted, refuse_unknown_fake_keys};
use gaveldrop::fake::rule::{Match, Response, Rule, Scenario};

fn strings(items: &[&str]) -> Vec<String> {
    items.iter().map(|item| item.to_string()).collect()
}

fn rule(bin: Option<&str>, exit: Option<i32>) -> Rule {
    let mut response = Response::default();
    response.exit = exit;
    Rule { matcher: Match { bin: bin.map(String::from), ..Match::default() }, response }
}

fn faked(rules: Vec<Rule>) -> Case {
    let mut case = Case::default();
    case.name = "t".to_string();
    case.weight = 1;
    case.setup.run = Some(strings(&["true"]));
    case.fake = Some(Scenario { render: None, rules });
    case
}

fn keys(block: &[&str], rules: &[(&[&str], &[&str])]) -> FakeKeys {
    FakeKeys {
        block: strings(block),
        rules: rules
            .iter()
            .map(|(own, matcher)| RuleKeys { keys: strings(own), matcher: strings(matcher) })
            .collect(),
    }
}

fn refusal(case: Case, fake: &FakeKeys) -> String {
    match accepted(case, Some(fake), "inline") {
        Ok(_) => panic!("the case must be refused"),
        Err(error) => error.message(),
    }
}

#[test]
fn a_fake_with_no_catch_all_is_refused_at_load_time() {
    let case = faked(vec![rule(Some("git"), None)]);
    let message = refusal(case, &keys(&["rules"], &[(&["match", "stdout"], &["bin"])]));

    assert!(message.contains("catch-all"), "{message}");
    assert!(message.contains("inline"), "{message}");
}

#[test]
fn a_fake_with_a_catch_all_loads() {
    let case = faked(vec![rule(Some("git"), None), rule(None, Some(127))]);
    let fake = keys(&["rules"], &[(&["match", "stdout"], &["bin"]), (&["match", "exit"], &[])]);

    assert!(accepted(case, Some(&fake), "inline").is_ok());
}

#[test]
fn an_unknown_criterion_is_refused_rather_than_turned_into_a_catch_all() {
    let case = faked(vec![rule(None, None), rule(None, Some(127))]);
    let text = refusal(case, &keys(&["rules"], &[(&["match", "stdout"], &["agent"]), (&["match", "exit"], &[])]));

    assert!(text.contains("fake.rules[0].match") && text.contains("agent"), "{text}");
    assert!(text.contains("catch-all"), "{text}");
    assert!(text.contains("bin") && text.contains("stdin_contains"), "{text}");
    assert!(text.contains("setup:"), "{text}");
}

#[test]
fn a_typo_in_a_response_is_refused_too() {
    let case = faked(vec![rule(None, None)]);
    let text = refusal(case, &keys(&["rules"], &[(&["match", "stdoutt"], &[])]));

    assert!(text.contains("fake.rules[0]") && text.contains("stdoutt"), "{text}");
    assert!(!text.contains("catch-all"), "{text}");
}

#[test]
fn a_project_only_key_on_the_fake_block_is_refused() {
    let case = faked(vec![rule(None, Some(0))]);
    let text = refusal(case, &keys(&["no_passthrough", "rules"], &[(&["match", "exit"], &[])]));

    assert!(text.contains("no_passthrough"), "{text}");
}

#[test]
fn every_key_the_fake_engine_does_read_is_accepted() {
    let case = faked(vec![rule(Some("git"), Some(1)), rule(None, Some(127))]);
    let fake = keys(
        &["render", "rules"],
        &[
            (
                &["match", "stdout", "stderr", "exit", "exec", "latency_ms", "status", "headers"],
                &["bin", "args_contain", "stdin_contains", "call"],
            ),
            (&["match", "exit"], &[]),
        ],
    );

    assert!(accepted(case, Some(&fake), "inline").is_ok());
}

#[test]
fn a_case_with_no_fake_block_still_loads() {
    let mut case = Case::default();
    case.name = "t".to_string();
    case.setup.run = Some(strings(&["true"]));

    assert!(accepted(case, None, "inline").is_ok());
}

#[test]
fn the_first_unknown_key_is_the_one_reported() {
    let found = refuse_unknown_fake_keys(&keys(
        &["rules"],
        &[(&["match"], &[]), (&["match", "nope", "later"], &["also"])],
    ))
    .unwrap_err();

    assert_eq!(found.0, "fake.rules[1]");
    assert_eq!(found.1, "nope");
    assert_eq!(found.2[0], "match");
}

#[test]
fn a_case_error_names_what_could_not_be_read() {
    let error = CaseError::Scenario { path: "cases/a.yaml".to_string() };

    assert!(error.message().starts_with("case cases/a.yaml: scenario has no catch-all"));
}
