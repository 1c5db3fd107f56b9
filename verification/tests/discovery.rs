use gaveldrop::discovery::{Discovered, Reading, inspect};

#[test]
fn nothing_found_is_an_empty_list_rather_than_an_error() {
    assert_eq!(inspect(&[]), Discovered::default());
}

const ONE: &str = "name: an-order-is-created\nweight: 8\nsetup:\n  run: [\"true\"]\nexpect:\n  exit_code: 0\n";

#[test]
fn a_case_is_found_with_the_line_of_its_name() {
    let found = inspect(&[
        Reading::Loaded {
            path: "one.yaml".to_string(),
            text: ONE.to_string(),
            name: "an-order-is-created".to_string(),
            weight: 8,
            allow_fail: false,
            steps: 0,
        },
        Reading::Failed { path: "broken.yaml".to_string(), reason: "broken.yaml: not a case".to_string() },
    ]);
    assert_eq!(found.cases.len(), 1);
    assert_eq!(found.cases[0].line, 1);
    assert_eq!(found.cases[0].weight, 8);
    assert_eq!(found.unreadable.len(), 1);
    assert!(found.unreadable[0].reason.contains("broken.yaml"));
}
