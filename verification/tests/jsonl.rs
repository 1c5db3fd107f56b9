use gaveldrop::outcome::{Diff, Outcome};
use gaveldrop::report::jsonl::Jsonl;
use gaveldrop::report::{Report, Sink};

fn outcome(name: &str, weight: u32, passed: bool) -> Outcome {
    Outcome {
        name: name.to_string(),
        weight,
        allow_fail: false,
        passed,
        diffs: Vec::new(),
        unexpected_calls: Vec::new(),
        unmentioned_files: Vec::new(),
        duration_ms: 0,
    }
}

fn rendered(outcomes: &[Outcome], call_finish: bool) -> String {
    let report = Report::from(outcomes.to_vec());
    let mut sink = Jsonl::new();
    for outcome in &report.outcomes {
        sink.case_finished(outcome);
    }
    if call_finish {
        sink.finish(&report);
    }
    sink.text().to_string()
}

#[test]
fn no_summary_line_is_written_ever() {
    let text = rendered(&[outcome("a", 5, true)], true);
    assert!(!text.contains("\"total\"") && !text.contains("\"max_score\""), "{text}");
}

#[test]
fn a_line_is_written_before_finish_is_ever_called() {
    let text = rendered(&[outcome("first", 5, true)], false);
    assert!(text.contains("first"), "{text}");
}

#[test]
fn one_line_per_outcome_valid_json_each() {
    let text = rendered(&[outcome("a", 5, true), outcome("b \"quoted\"", 3, false)], true);
    let lines: Vec<&str> = text.lines().filter(|line| !line.trim().is_empty()).collect();
    assert_eq!(lines.len(), 2, "text was:\n{text}");
    for line in lines {
        let value: serde_json::Value = serde_json::from_str(line).unwrap();
        assert!(value["name"].is_string());
    }
}

#[test]
fn shards_written_apart_concatenate_into_the_merged_report() {
    let a = vec![outcome("a", 5, true), outcome("b", 3, false)];
    let b = vec![outcome("c", 2, true)];

    let mut first = Jsonl::new();
    for o in &a {
        first.case_finished(o);
    }
    let mut second = Jsonl::new();
    for o in &b {
        second.case_finished(o);
    }
    let merged = Report::merge(vec![Report::from(a.clone()), Report::from(b.clone())]);
    let mut whole = Jsonl::new();
    for o in &merged.outcomes {
        whole.case_finished(o);
    }

    assert_eq!(format!("{}{}", first.text(), second.text()), whole.text(), "merging is `cat`");
}

#[test]
fn a_failing_outcome_carries_its_diffs() {
    let failing = Outcome {
        diffs: vec![Diff {
            path: "expect.exit_code".to_string(),
            expected: "0".to_string(),
            got: "3".to_string(),
        }],
        ..outcome("broken", 8, false)
    };
    let text = rendered(&[failing], true);
    let value: serde_json::Value = serde_json::from_str(text.trim()).unwrap();

    assert_eq!(value["diffs"][0]["path"], "expect.exit_code");
    assert_eq!(value["diffs"][0]["got"], "3");
}
