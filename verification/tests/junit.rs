use gaveldrop::outcome::{Diff, Outcome};
use gaveldrop::report::junit::Junit;
use gaveldrop::report::{Report, Sink};

fn outcome(name: &str, passed: bool, allow_fail: bool, diffs: Vec<Diff>) -> Outcome {
    Outcome {
        name: name.to_string(),
        weight: 5,
        allow_fail,
        passed,
        diffs,
        unexpected_calls: Vec::new(),
        unmentioned_files: Vec::new(),
        duration_ms: 0,
    }
}

fn diff(path: &str, got: &str) -> Diff {
    Diff { path: path.to_string(), expected: "something".to_string(), got: got.to_string() }
}

fn rendered(outcomes: Vec<Outcome>) -> String {
    let report = Report::from(outcomes);
    let mut sink = Junit::new();
    for outcome in &report.outcomes {
        sink.case_finished(outcome);
    }
    sink.finish(&report);
    sink.text().to_string()
}

#[test]
fn a_passing_case_is_a_testcase_with_no_children() {
    let xml = rendered(vec![outcome("fine", true, false, Vec::new())]);
    assert!(xml.contains(r#"<testcase name="fine" classname="gaveldrop" time="0.000"/>"#), "{xml}");
}

#[test]
fn a_case_with_exchanges_groups_them_under_its_own_classname() {
    let passing = outcome("ordering", true, false, Vec::new());
    let mut sink = Junit::new();
    sink.declares_steps("ordering", &[Some("creates an order".to_string()), None]);
    sink.case_finished(&passing);
    sink.finish(&Report::from(vec![passing]));
    let xml = sink.text().to_string();

    assert!(xml.contains(r#"name="the run as a whole" classname="gaveldrop.ordering""#), "{xml}");
    assert!(xml.contains(r#"name="creates an order" classname="gaveldrop.ordering""#), "{xml}");
    assert!(xml.contains(r#"name="step 2" classname="gaveldrop.ordering""#), "{xml}");
}

#[test]
fn the_counts_match_what_was_written() {
    let plain = outcome("plain", true, false, Vec::new());
    let stepped = outcome("ordering", false, false, vec![diff("steps[0] \"only\".exit_code", "4")]);
    let mut sink = Junit::new();
    sink.declares_steps("ordering", &[Some("only".to_string())]);
    sink.case_finished(&plain);
    sink.case_finished(&stepped);
    sink.finish(&Report::from(vec![plain, stepped]));
    let xml = sink.text().to_string();

    assert_eq!(xml.matches("<testcase ").count(), 3, "{xml}");
    assert!(xml.contains(r#"tests="3" failures="1""#), "{xml}");
}

#[test]
fn a_failure_lands_on_the_entry_it_came_from() {
    let failing = outcome(
        "ordering",
        false,
        false,
        vec![diff("expect.exit_code", "0"), diff("steps[1] \"the second\".exit_code", "4")],
    );
    let mut sink = Junit::new();
    sink.declares_steps("ordering", &[Some("the first".to_string()), Some("the second".to_string())]);
    sink.case_finished(&failing);
    sink.finish(&Report::from(vec![failing]));
    let xml = sink.text().to_string();

    assert!(xml.contains(r#"name="the first" classname="gaveldrop.ordering"/>"#), "{xml}");
    assert_eq!(xml.matches("<failure").count(), 2, "{xml}");
    assert!(xml.contains(r#"tests="3" failures="2""#), "{xml}");
}

#[test]
fn an_exchange_carries_no_time_attribute() {
    let passing = outcome("ordering", true, false, Vec::new());
    let mut sink = Junit::new();
    sink.declares_steps("ordering", &[None]);
    sink.case_finished(&passing);
    sink.finish(&Report::from(vec![passing]));
    let xml = sink.text().to_string();

    assert!(xml.contains(r#"name="step 1" classname="gaveldrop.ordering"/>"#), "{xml}");
    assert_eq!(xml.matches(" time=").count(), 2, "{xml}");
}

#[test]
fn every_testcase_carries_the_time_it_took() {
    let mut fast = outcome("fast", true, false, Vec::new());
    fast.duration_ms = 312;
    let mut slow = outcome("slow", false, false, vec![diff("expect.exit_code", "1")]);
    slow.duration_ms = 12_345;
    let xml = rendered(vec![fast, slow]);

    assert!(xml.contains(r#"<testcase name="fast" classname="gaveldrop" time="0.312"/>"#), "{xml}");
    assert!(xml.contains(r#"<testcase name="slow" classname="gaveldrop" time="12.345">"#), "{xml}");
    assert!(xml.contains(r#"time="12.657""#), "{xml}");
}

#[test]
fn a_failing_case_carries_its_diffs_in_the_failure_body() {
    let xml = rendered(vec![outcome("broken", false, false, vec![diff("expect.stdout.contains[0]", "nothing of the sort")])]);
    for fragment in [r#"<failure message="expect.stdout.contains[0]">"#, "expect.stdout.contains[0]", "nothing of the sort"] {
        assert!(xml.contains(fragment), "Missing {fragment:?} in {xml}");
    }
}

#[test]
fn a_tolerated_failure_is_skipped_rather_than_failed() {
    let xml = rendered(vec![outcome("known", false, true, vec![diff("expect.exit_code", "7")])]);
    assert!(xml.contains("<skipped") && !xml.contains("<failure"), "{xml}");
    assert!(xml.contains("tolerated"), "{xml}");
}

#[test]
fn the_counts_in_the_header_match_the_outcomes() {
    let xml = rendered(vec![
        outcome("a", true, false, Vec::new()),
        outcome("b", false, false, vec![diff("expect.exit_code", "1")]),
        outcome("c", false, true, vec![diff("expect.exit_code", "2")]),
    ]);
    assert!(xml.contains(r#"<testsuites tests="3" failures="1" skipped="1">"#), "{xml}");
}

#[test]
fn the_five_xml_characters_are_escaped_wherever_they_appear() {
    let xml = rendered(vec![outcome(
        "a <case> & \"friends\"",
        false,
        false,
        vec![diff("expect.stdout", "<html>it's 5 > 3</html>")],
    )]);
    assert!(!xml.contains("<html>") && !xml.contains("<case>"), "{xml}");
    for entity in ["&lt;", "&gt;", "&amp;", "&quot;", "&apos;"] {
        assert!(xml.contains(entity), "missing {entity} in {xml}");
    }
}

#[test]
fn a_control_byte_is_dropped_rather_than_escaped() {
    let xml = rendered(vec![outcome("noisy", false, false, vec![diff("expect.stdout", "before\u{1}after")])]);
    assert!(xml.contains("beforeafter") && !xml.contains('\u{1}'), "{xml}");
}

#[test]
fn a_failure_with_several_diffs_says_how_many_in_its_headline() {
    let xml = rendered(vec![outcome("several", false, false, vec![diff("expect.status", "500"), diff("expect.body", "empty")])]);
    assert!(xml.contains("and 1 more"), "{xml}");
}

#[test]
fn an_empty_run_is_a_valid_document_rather_than_nothing() {
    let xml = rendered(Vec::new());
    assert!(xml.contains("<testsuites tests=\"0\""));
    assert!(xml.contains("</testsuites>"), "{xml}");
}
