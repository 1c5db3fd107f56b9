use gaveldrop::outcome::Outcome;
use gaveldrop::report::verbose::Verbose;
use gaveldrop::report::{Report, Sink};

#[test]
fn a_verdict_is_not_printed_here() {
    let mut verbose = Verbose::new();
    verbose.case_finished(&Outcome {
        name: "t".to_string(),
        weight: 1,
        allow_fail: false,
        passed: true,
        diffs: Vec::new(),
        unexpected_calls: Vec::new(),
        unmentioned_files: Vec::new(),
        duration_ms: 0,
    });
    verbose.finish(&Report::from(Vec::new()));
    assert!(verbose.text().is_empty());
}

#[test]
fn the_case_is_named_and_every_line_is_indented_under_it() {
    let mut verbose = Verbose::new();
    verbose.preparing("deploys-cleanly", &["adapter    process".to_string(), "root       /tmp/x".to_string()]);
    let text = verbose.text().to_string();
    assert!(text.starts_with("···  deploys-cleanly\n"), "{text:?}");
    assert!(text.contains("\n       adapter    process\n"), "{text:?}");
}
