use gaveldrop::config::GateConfig;
use gaveldrop::outcome::{Diff, Outcome};
use gaveldrop::report::jsonl::Jsonl;
use gaveldrop::report::terminal::Terminal;
use gaveldrop::report::{Gating, Report, Sink, Tee, duration, failure_lines, seconds};

fn outcome(name: &str, weight: u32, passed: bool, allow_fail: bool) -> Outcome {
    Outcome {
        name: name.to_string(),
        weight,
        allow_fail,
        passed,
        diffs: Vec::new(),
        unexpected_calls: Vec::new(),
        unmentioned_files: Vec::new(),
        duration_ms: 0,
    }
}

fn timed(cases: &[(&str, u64)]) -> Vec<Outcome> {
    cases.iter().map(|(name, ms)| Outcome { duration_ms: *ms, ..outcome(name, 1, true, false) }).collect()
}

fn rendered_for(outcomes: Vec<Outcome>, call_finish: bool) -> String {
    let report = Report::from(outcomes);
    let mut sink = Terminal::plain();
    for outcome in &report.outcomes {
        sink.case_finished(outcome);
    }
    if call_finish {
        sink.finish(&report);
    }
    sink.text().to_string()
}

fn gated(outcomes: Vec<Outcome>, gate: &GateConfig) -> Gating {
    Report::from(outcomes).gate(gate)
}

fn gate(min_score: Option<u32>, max_tolerated: Option<usize>, above: Option<u32>) -> GateConfig {
    GateConfig { min_score, max_tolerated, fail_above_weight: above }
}

#[test]
fn an_absent_gate_passes_everything() {
    let verdict = gated(vec![outcome("broken", 8, false, false)], &GateConfig::default());
    assert!(verdict.passed, "gating is opt-in");
}

#[test]
fn a_score_below_the_minimum_fails_and_says_by_how_much() {
    let verdict = gated(vec![outcome("a", 5, true, false), outcome("b", 5, false, false)], &gate(Some(8), None, None));
    assert!(!verdict.passed);
    let said = verdict.reasons.join(" ");
    assert!(said.contains('5') && said.contains('8'), "both numbers: {said}");
}

#[test]
fn a_threshold_above_the_suites_own_total_says_it_can_never_be_met() {
    let verdict = gated(vec![outcome("a", 5, true, false), outcome("b", 5, true, false)], &gate(Some(80), None, None));
    assert!(!verdict.passed);
    let said = verdict.reasons.join(" ");
    assert!(said.contains("never be met"), "{said}");
    assert!(said.contains("not a percentage"), "{said}");
}

#[test]
fn a_reachable_threshold_that_is_missed_still_reports_the_shortfall() {
    let verdict = gated(vec![outcome("a", 5, true, false), outcome("b", 5, false, false)], &gate(Some(8), None, None));
    let said = verdict.reasons.join(" ");
    assert!(!said.contains("never be met"), "{said}");
    assert_eq!(said, "the weighted score is 5 of 10, below the 8 this project requires");
}

#[test]
fn more_tolerated_failures_than_allowed_fails_the_gate() {
    let verdict = gated(
        vec![outcome("known-one", 3, false, true), outcome("known-two", 3, false, true)],
        &gate(None, Some(1), None),
    );
    assert!(!verdict.passed, "an exemption nobody counts becomes a habit");
}

#[test]
fn a_heavy_case_failing_fails_the_gate_whatever_the_score() {
    let verdict = gated(
        vec![outcome("small", 1, false, false), outcome("critical", 9, false, false), outcome("rest", 90, true, false)],
        &gate(Some(50), None, Some(8)),
    );
    assert!(!verdict.passed);
    assert!(verdict.reasons.iter().any(|why| why.contains("critical")), "{:?}", verdict.reasons);
}

#[test]
fn a_heavy_case_that_passes_does_not_fail_the_gate() {
    let verdict = gated(vec![outcome("critical", 9, true, false)], &gate(None, None, Some(8)));
    assert!(verdict.passed, "{:?}", verdict.reasons);
}

#[test]
fn a_tolerated_heavy_failure_does_not_trip_the_weight_rule() {
    let verdict = gated(vec![outcome("known-heavy", 9, false, true)], &gate(None, None, Some(8)));
    assert!(verdict.passed, "{:?}", verdict.reasons);
}

#[test]
fn every_reason_is_reported_not_just_the_first() {
    let verdict = gated(
        vec![outcome("known", 3, false, true), outcome("critical", 9, false, false)],
        &gate(Some(100), Some(0), Some(8)),
    );
    assert_eq!(verdict.reasons.len(), 3, "{:?}", verdict.reasons);
    assert_eq!(verdict.reasons[1], "1 tolerated failures, and this project allows 0");
    assert_eq!(
        verdict.reasons[2],
        "`critical` failed, and its weight of 9 is above the 8 this project treats as unconditional"
    );
}

#[test]
fn the_score_weighs_passing_cases_against_the_total() {
    let report = Report::from(vec![outcome("a", 8, true, false), outcome("b", 5, true, false), outcome("c", 3, false, false)]);
    let summary = report.summary();
    assert_eq!(summary.total, 3);
    assert_eq!(summary.passed, 2);
    assert_eq!(summary.failed, 1);
    assert_eq!(summary.score, 13);
    assert_eq!(summary.max_score, 16);
}

#[test]
fn a_tolerated_failure_is_counted_apart_rather_than_hidden() {
    let report = Report::from(vec![outcome("a", 5, true, false), outcome("known", 3, false, true)]);
    let summary = report.summary();
    assert_eq!(summary.tolerated, 1);
    assert_eq!(summary.failed, 0);
    assert!(!report.outcomes[1].passed);
    assert!(report.is_success());
}

#[test]
fn two_reports_merge_by_concatenation() {
    let first = Report::from(vec![outcome("a", 5, true, false)]);
    let second = Report::from(vec![outcome("b", 3, false, false)]);
    let merged = Report::merge(vec![first, second]);
    assert_eq!(merged.summary().total, 2);
    assert_eq!(merged.summary().score, 5);
}

#[test]
fn an_empty_report_has_a_zero_score_and_does_not_divide_by_anything() {
    let summary = Report::from(Vec::new()).summary();
    assert_eq!(summary.total, 0);
    assert_eq!(summary.score, 0);
    assert_eq!(summary.max_score, 0);
}

#[test]
fn a_duration_reads_in_the_unit_that_suits_it() {
    for (ms, expected) in [
        (0, "0ms"),
        (7, "7ms"),
        (312, "312ms"),
        (999, "999ms"),
        (1_000, "1.0s"),
        (1_249, "1.2s"),
        (12_345, "12.3s"),
    ] {
        assert_eq!(duration(ms), expected, "for {ms}ms");
    }
}

#[test]
fn seconds_are_decimal_and_never_carry_a_unit() {
    for (ms, expected) in [(0, "0.000"), (7, "0.007"), (312, "0.312"), (1_000, "1.000"), (12_345, "12.345")] {
        assert_eq!(seconds(ms), expected, "for {ms}ms");
        assert!(seconds(ms).parse::<f64>().is_ok(), "a CI parses this as a number: {}", seconds(ms));
    }
}

#[test]
fn the_summary_adds_up_what_the_cases_took() {
    let mut quick = outcome("quick", 1, true, false);
    quick.duration_ms = 40;
    let mut slow = outcome("slow", 1, false, false);
    slow.duration_ms = 2_000;
    assert_eq!(Report::from(vec![quick, slow]).summary().duration_ms, 2_040);
}

#[test]
fn the_terminal_names_a_duration_only_when_it_is_worth_naming() {
    let mut quick = outcome("quick", 1, true, false);
    quick.duration_ms = 40;
    let mut slow = outcome("slow", 1, true, false);
    slow.duration_ms = 4_100;
    let text = rendered_for(vec![quick, slow], true);
    assert!(text.contains("quick  1/1\n"), "{text}");
    assert!(text.contains("slow  1/1  4.1s"), "{text}");
    assert!(text.contains("· 4.1s"), "{text}");
}

#[test]
fn the_summary_names_the_slowest_cases() {
    let text = rendered_for(timed(&[("quick", 10), ("slow", 520), ("middling", 270)]), true);
    let line = text
        .lines()
        .find(|line| line.starts_with("slowest"))
        .unwrap_or_else(|| panic!("no ranking in:\n{text}"));
    assert!(line.starts_with("slowest — slow 520ms · middling 270ms · quick 10ms"), "{line}");
}

#[test]
fn a_uniformly_fast_run_is_not_ranked() {
    let text = rendered_for(timed(&[("a", 8), ("b", 11), ("c", 20)]), true);
    assert!(!text.contains("slowest"), "{text}");
}

#[test]
fn a_run_too_small_to_rank_is_not_ranked() {
    let text = rendered_for(timed(&[("a", 400), ("b", 900)]), true);
    assert!(!text.contains("slowest"), "{text}");
}

#[test]
fn the_terminal_sink_emits_a_case_before_finish_is_ever_called() {
    let midway = rendered_for(vec![outcome("first", 5, true, false)], false);
    assert!(midway.contains("first"), "{midway}");
    assert!(!midway.contains("cases ·"), "{midway}");
}

#[test]
fn the_terminal_report_names_the_case_the_expectation_and_the_value() {
    let failing = Outcome {
        diffs: vec![Diff {
            path: "expect.stdout.absent[0]".to_string(),
            expected: "nowhere: \"ZSH_ENV\"".to_string(),
            got: "scriptPath: $ZSH_ENV_DIR/scripts/fmt.zsh".to_string(),
        }],
        ..outcome("k9s-leaves-no-unresolved-variable", 8, false, false)
    };
    let rendered = rendered_for(vec![failing], true);
    for fragment in ["k9s-leaves-no-unresolved-variable", "expect.stdout.absent[0]", "ZSH_ENV_DIR", "0/8"] {
        assert!(rendered.contains(fragment), "Missing {fragment:?} in:\n{rendered}");
    }
}

#[test]
fn an_unexpected_call_is_reported_even_with_no_diffs() {
    let failing = Outcome { unexpected_calls: vec!["kubectl".to_string()], ..outcome("t", 5, false, false) };
    assert!(rendered_for(vec![failing], false).contains("kubectl"));
}

#[test]
fn a_tee_feeds_every_renderer_it_was_given() {
    let report = Report::from(vec![outcome("shared", 5, true, false)]);
    let first = std::rc::Rc::new(std::cell::RefCell::new(Terminal::plain()));
    let second = std::rc::Rc::new(std::cell::RefCell::new(Jsonl::new()));
    {
        let mut tee = Tee::new();
        tee.add(Box::new(Shared(first.clone())));
        tee.add(Box::new(Shared(second.clone())));
        for outcome in &report.outcomes {
            tee.case_finished(outcome);
        }
        tee.finish(&report);
    }
    assert!(first.borrow().text().contains("shared"), "the terminal must still see every case");
    assert!(second.borrow().text().contains("\"name\":\"shared\""), "and so must the machine-readable file");
}

struct Shared<S: Sink>(std::rc::Rc<std::cell::RefCell<S>>);

impl<S: Sink> Sink for Shared<S> {
    fn case_finished(&mut self, outcome: &Outcome) {
        self.0.borrow_mut().case_finished(outcome);
    }

    fn finish(&mut self, report: &Report) {
        self.0.borrow_mut().finish(report);
    }
}

#[test]
fn an_empty_tee_is_harmless() {
    let report = Report::from(vec![outcome("a", 1, true, false)]);
    let mut tee = Tee::new();
    tee.case_finished(&report.outcomes[0]);
    tee.finish(&report);
}

#[test]
fn a_tolerated_failure_reads_differently_from_a_real_one() {
    let tolerated = rendered_for(vec![outcome("known", 3, false, true)], false);
    let failed = rendered_for(vec![outcome("broken", 3, false, false)], false);
    assert_ne!(tolerated.split_whitespace().next(), failed.split_whitespace().next());
}

#[test]
fn failure_lines_name_the_path_what_was_wanted_and_what_came_back() {
    let failing = Outcome {
        diffs: vec![Diff { path: "expect.exit_code".into(), expected: "0".into(), got: "3".into() }],
        unexpected_calls: vec!["gh".into(), "git".into()],
        unmentioned_files: vec!["out.log".into()],
        ..outcome("t", 1, false, false)
    };
    assert_eq!(
        failure_lines(&failing),
        vec![
            "    expect.exit_code\n      expected  0\n      got       3".to_string(),
            "    unexpected calls\n      got       gh, git".to_string(),
            "    (also written, not asserted: out.log)".to_string(),
        ]
    );
}

#[test]
fn a_run_that_misses_the_bar_does_not_clear_it() {
    let report = Report::from(vec![outcome("a", 5, true, false), outcome("b", 5, false, true)]);
    assert!(report.is_success());
    assert!(!report.clears(&gate(Some(8), None, None)));
    assert!(report.clears(&gate(Some(5), None, None)));
}
