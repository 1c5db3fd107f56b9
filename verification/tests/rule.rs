use gaveldrop::fake::invocation::Invocation;
use gaveldrop::fake::rule::{Match, Response, Rule, Scenario};

fn inv(bin: &str, args: &[&str], stdin: &str) -> Invocation {
    Invocation {
        bin: bin.to_string(),
        args: args.iter().map(|s| (*s).to_string()).collect(),
        stdin: stdin.to_string(),
    }
}

#[test]
fn an_empty_match_is_a_catch_all_and_matches_everything() {
    let m = Match::default();
    assert!(m.is_catch_all());
    assert!(m.matches(&inv("git", &["status"], ""), 1));
    assert!(m.matches(&inv("kubectl", &[], ""), 42));
}

#[test]
fn bin_discriminates_the_faked_binary() {
    let m = Match {
        bin: Some("git".into()),
        ..Default::default()
    };
    assert!(!m.is_catch_all());
    assert!(m.matches(&inv("git", &["status"], ""), 1));
    assert!(!m.matches(&inv("kubectl", &["get"], ""), 1));
}

#[test]
fn args_contain_searches_the_joined_arguments() {
    let m = Match {
        args_contain: Some("get pods".into()),
        ..Default::default()
    };
    assert!(
        m.matches(&inv("kubectl", &["get", "pods", "-A"], ""), 1),
        "the needle spans two arguments, so matching must happen after joining"
    );
    assert!(!m.matches(&inv("kubectl", &["get", "svc"], ""), 1));
}

#[test]
fn stdin_contains_searches_standard_input() {
    let m = Match {
        stdin_contains: Some("AGENT: alpha".into()),
        ..Default::default()
    };
    assert!(m.matches(&inv("helper", &[], "noise\nAGENT: alpha\n"), 1));
    assert!(!m.matches(&inv("helper", &[], "noise"), 1));
}

#[test]
fn call_discriminates_the_call_rank() {
    let m = Match {
        call: Some(2),
        ..Default::default()
    };
    assert!(!m.matches(&inv("git", &[], ""), 1));
    assert!(m.matches(&inv("git", &[], ""), 2));
    assert!(!m.matches(&inv("git", &[], ""), 3));
}

#[test]
fn criteria_are_cumulative() {
    let m = Match {
        bin: Some("git".into()),
        args_contain: Some("push".into()),
        call: Some(1),
        ..Default::default()
    };
    assert!(m.matches(&inv("git", &["push", "origin"], ""), 1));
    assert!(
        !m.matches(&inv("git", &["push", "origin"], ""), 2),
        "every present criterion must hold; none of them is an `or`"
    );
    assert!(!m.matches(&inv("git", &["pull"], ""), 1));
}

#[test]
fn the_first_matching_rule_wins() {
    let scenario = Scenario {
        render: None,
        rules: vec![
            Rule {
                matcher: Match {
                    bin: Some("git".into()),
                    ..Default::default()
                },
                response: Response {
                    stdout: Some("first".into()),
                    ..Default::default()
                },
            },
            Rule {
                matcher: Match::default(),
                response: Response {
                    stdout: Some("catch-all".into()),
                    ..Default::default()
                },
            },
        ],
    };

    let chosen = scenario.select(&inv("git", &[], ""), 1).unwrap();
    assert_eq!(chosen.response.stdout.as_deref(), Some("first"));

    let chosen = scenario.select(&inv("gh", &[], ""), 1).unwrap();
    assert_eq!(
        chosen.response.stdout.as_deref(),
        Some("catch-all"),
        "an unexpected call must reach the catch-all, not go unmatched"
    );
}

#[test]
fn a_scenario_with_no_rule_that_admits_the_call_selects_nothing() {
    let scenario = Scenario {
        render: None,
        rules: vec![Rule {
            matcher: Match {
                bin: Some("git".into()),
                ..Default::default()
            },
            response: Response::default(),
        }],
    };
    assert!(scenario.select(&inv("gh", &[], ""), 1).is_none());
    assert!(scenario.validate().is_err());
}
