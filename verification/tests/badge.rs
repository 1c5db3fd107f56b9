use gaveldrop::outcome::{Diff, Outcome};
use gaveldrop::report::badge::Badge;
use gaveldrop::report::{Report, Sink};

fn outcome(name: &str, weight: u32, passed: bool, allow_fail: bool) -> Outcome {
    Outcome {
        name: name.to_string(),
        weight,
        allow_fail,
        passed,
        diffs: if passed {
            Vec::new()
        } else {
            vec![Diff { path: "expect.exit_code".to_string(), expected: "0".to_string(), got: "1".to_string() }]
        },
        unexpected_calls: Vec::new(),
        unmentioned_files: Vec::new(),
        duration_ms: 0,
    }
}

fn badge_for(outcomes: Vec<Outcome>) -> String {
    let report = Report::from(outcomes);
    let mut badge = Badge::new();
    badge.finish(&report);
    badge.text().to_string()
}

#[test]
fn a_clean_run_shows_the_full_score_in_green() {
    let svg = badge_for(vec![outcome("a", 5, true, false), outcome("b", 3, true, false)]);
    assert!(svg.contains(">8/8<"), "the weighted score, not a count: {svg}");
    assert!(svg.contains("#2e6f52"), "{svg}");
}

#[test]
fn a_failure_is_red_and_the_score_says_how_much_held() {
    let svg = badge_for(vec![outcome("a", 5, true, false), outcome("b", 3, false, false)]);
    assert!(svg.contains(">5/8<"), "{svg}");
    assert!(svg.contains("#b3403f"), "{svg}");
}

#[test]
fn a_tolerated_failure_looks_like_neither_of_the_other_two() {
    let svg = badge_for(vec![outcome("a", 5, true, false), outcome("known", 3, false, true)]);
    assert!(svg.contains("#9a6b12"), "{svg}");
}

#[test]
fn the_title_says_the_badge_is_a_photograph() {
    let svg = badge_for(vec![outcome("a", 5, true, false)]);
    assert!(svg.contains("as of the run that wrote this file"), "{svg}");
    assert!(svg.contains("1 of 1 cases passed"), "{svg}");
}

#[test]
fn a_wide_value_gets_a_wider_box() {
    let narrow = badge_for(vec![outcome("a", 5, true, false)]);
    let wide = badge_for(vec![outcome("a", 4_000, true, false)]);
    let width = |svg: &str| -> usize {
        svg.split("width=\"").nth(1).and_then(|rest| rest.split('"').next()).and_then(|n| n.parse().ok()).unwrap()
    };
    assert!(width(&wide) > width(&narrow));
    assert_eq!(width(&narrow), 75 + 12 + 3 * 7);
}

#[test]
fn an_empty_report_does_not_divide_by_anything() {
    let svg = badge_for(Vec::new());
    assert!(svg.contains(">0/0<"), "{svg}");
}
