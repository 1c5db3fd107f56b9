use gaveldrop::outcome::Outcome;
use gaveldrop::report::merge::{MergeError, outcome_lines, read_parsed};
use gaveldrop::report::Report;

const SHARD_A: &str = "{\"name\":\"a\",\"weight\":5,\"allow_fail\":false,\"passed\":true,\"diffs\":[],\"unexpected_calls\":[]}\n";
const SHARD_B: &str = "{\"name\":\"b\",\"weight\":3,\"allow_fail\":false,\"passed\":false,\"diffs\":[],\"unexpected_calls\":[]}\n";

fn strings(value: &serde_json::Value) -> Vec<String> {
    value
        .as_array()
        .map(|items| items.iter().filter_map(|s| s.as_str().map(str::to_string)).collect())
        .unwrap_or_default()
}

/// One line read as JSON, the way the binary reads it, then taken apart into an outcome.
fn parsed(json: &str) -> Result<Outcome, serde_json::Error> {
    let value: serde_json::Value = serde_json::from_str(json)?;
    Ok(Outcome {
        name: value["name"].as_str().unwrap_or_default().to_string(),
        weight: value["weight"].as_u64().unwrap_or_default() as u32,
        allow_fail: value["allow_fail"].as_bool().unwrap_or_default(),
        passed: value["passed"].as_bool().unwrap_or_default(),
        diffs: Vec::new(),
        unexpected_calls: strings(&value["unexpected_calls"]),
        unmentioned_files: strings(&value["unmentioned_files"]),
        duration_ms: value["duration_ms"].as_u64().unwrap_or_default(),
    })
}

fn read(text: &str) -> Result<Report, MergeError> {
    let lines = outcome_lines(text)
        .into_iter()
        .map(|(line, json)| (line, parsed(&json)))
        .collect();
    read_parsed(lines)
}

fn outcome(name: &str) -> Outcome {
    Outcome {
        name: name.to_string(),
        weight: 1,
        allow_fail: false,
        passed: true,
        diffs: Vec::new(),
        unexpected_calls: Vec::new(),
        unmentioned_files: Vec::new(),
        duration_ms: 0,
    }
}

fn json_failure() -> serde_json::Error {
    serde_json::from_str::<serde_json::Value>("not json").unwrap_err()
}

#[test]
fn one_shard_reads_back_into_a_report() {
    let report = read(SHARD_A).unwrap();

    assert_eq!(report.summary().total, 1);
    assert_eq!(report.summary().score, 5);
}

#[test]
fn concatenated_shards_merge_and_the_summary_is_recomputed() {
    let concatenated = format!("{SHARD_A}{SHARD_B}");
    let summary = read(&concatenated).unwrap().summary();

    assert_eq!(
        summary.total, 2,
        "merging is `cat`, because nothing but outcomes was ever written"
    );
    assert_eq!(summary.passed, 1);
    assert_eq!(summary.failed, 1);
    assert_eq!(summary.score, 5);
    assert_eq!(summary.max_score, 8);
}

#[test]
fn a_blank_line_between_shards_is_tolerated() {
    let sloppy = format!("{SHARD_A}\n{SHARD_B}");
    assert_eq!(read(&sloppy).unwrap().summary().total, 2);
}

#[test]
fn a_malformed_line_names_its_number_rather_than_being_skipped() {
    let broken = format!("{SHARD_A}not json at all\n{SHARD_B}");
    let error = read(&broken).unwrap_err();

    assert!(
        error.message().contains('2'),
        "a report is consolidated for gating, so a line silently dropped would move the score \
         without anyone noticing. Name the line: {}",
        error.message()
    );
}

#[test]
fn blank_and_white_space_lines_are_passed_over_and_the_others_keep_their_numbers() {
    let lines = outcome_lines("first\n\n  \t \nsecond\r\nthird");
    assert_eq!(
        lines,
        vec![
            (1, "first".to_string()),
            (4, "second\r".to_string()),
            (5, "third".to_string()),
        ]
    );
}

#[test]
fn an_empty_report_has_no_lines_to_read() {
    assert!(outcome_lines("").is_empty());
    assert!(outcome_lines("\n\n").is_empty());
    assert_eq!(read("").unwrap().summary().total, 0);
}

#[test]
fn the_first_unreadable_line_is_the_one_named() {
    let error = read_parsed(vec![
        (1, Ok(outcome("a"))),
        (3, Err(json_failure())),
        (7, Err(json_failure())),
    ])
    .unwrap_err();
    match &error {
        MergeError::Line { line, .. } => assert_eq!(*line, 3),
        other => panic!("expected a line error, got {other:?}"),
    }
    assert!(error.message().starts_with("line 3 is not a readable outcome: "));
}

#[test]
fn outcomes_keep_the_order_of_their_lines() {
    let report = read_parsed(vec![(2, Ok(outcome("x"))), (5, Ok(outcome("y")))]).unwrap();
    let names: Vec<&str> = report.outcomes.iter().map(|o| o.name.as_str()).collect();
    assert_eq!(names, vec!["x", "y"]);
}

#[test]
fn an_unreadable_report_file_names_its_path() {
    let source = std::io::Error::new(std::io::ErrorKind::NotFound, "gone");
    let error = MergeError::Io {
        path: std::path::PathBuf::from("shards/absent.jsonl"),
        source,
    };
    let message = error.message();
    assert!(message.starts_with("reading the report "));
    assert!(message.contains("absent.jsonl"));
}

#[test]
fn concatenation_reads_back_the_first_report_then_the_second() {
    let first = "one\n\ntwo\n";
    let second = "three\n  \nfour";
    let texts = |text: &str| -> Vec<String> {
        outcome_lines(text).into_iter().map(|(_, line)| line).collect()
    };
    let joined = format!("{first}{second}");
    let mut expected = texts(first);
    expected.extend(texts(second));
    assert_eq!(texts(&joined), expected);
    assert_eq!(texts(&joined), vec!["one", "two", "three", "four"]);
}
