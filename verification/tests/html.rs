use gaveldrop::fake::journal::Call;
use gaveldrop::observations::Observations;
use gaveldrop::outcome::{Diff, Outcome};
use gaveldrop::report::Report;
use gaveldrop::report::html::{render, render_with};
use gaveldrop::strmap::StrMap;

fn outcome(name: &str, weight: u32, passed: bool) -> Outcome {
    Outcome {
        name: name.to_string(),
        weight,
        allow_fail: false,
        passed,
        diffs: Vec::new(),
        unexpected_calls: Vec::new(),
        unmentioned_files: Vec::new(),
        duration_ms: 0,
    }
}

fn observations(stdout: &str) -> Observations {
    let mut o = Observations::empty();
    o.stdout = stdout.to_string();
    o
}

fn page_with(outcome: Outcome, observed: Observations) -> String {
    let mut seen = StrMap::new();
    seen.insert(outcome.name.clone(), observed);
    render_with(&Report::from(vec![outcome]), &seen)
}

fn row_at(page: &str, name: &str) -> usize {
    page.find(&format!("{name}<div>")).unwrap_or_else(|| panic!("no row for {name:?} in:\n{page}"))
}

#[test]
fn a_case_with_no_observations_gets_no_empty_fold() {
    let page = render(&Report::from(vec![outcome("never-ran", 5, false)]));
    assert!(!page.contains("<details>"), "{page}");
}

#[test]
fn the_page_is_self_contained() {
    let page = render(&Report::from(vec![outcome("a", 5, true)]));
    for forbidden in ["http://", "https://", "//cdn", "<script src", "<link "] {
        assert!(!page.contains(forbidden), "{forbidden:?} in:\n{page}");
    }
    assert!(page.contains("<style>"), "styling must be inline");
}

#[test]
fn the_summary_and_every_case_appear() {
    let page = render(&Report::from(vec![outcome("passing-case", 5, true), outcome("failing-case", 8, false)]));
    for fragment in ["passing-case", "failing-case", "5/13"] {
        assert!(page.contains(fragment), "missing {fragment:?} in:\n{page}");
    }
}

#[test]
fn a_failure_shows_the_expectation_path_and_both_values() {
    let failing = Outcome {
        diffs: vec![Diff {
            path: "expect.stdout.absent[0]".to_string(),
            expected: "nowhere: \"ZSH_ENV\"".to_string(),
            got: "scriptPath: $ZSH_ENV_DIR/x.zsh".to_string(),
        }],
        ..outcome("k9s", 8, false)
    };
    let page = render(&Report::from(vec![failing]));
    for fragment in ["expect.stdout.absent[0]", "ZSH_ENV_DIR"] {
        assert!(page.contains(fragment), "missing {fragment:?}");
    }
}

#[test]
fn values_from_the_subject_are_escaped() {
    let hostile = Outcome {
        diffs: vec![Diff {
            path: "expect.stdout.contains[0]".to_string(),
            expected: "anything".to_string(),
            got: "<script>alert('x')</script> & \"quoted\"".to_string(),
        }],
        ..outcome("hostile", 1, false)
    };
    let page = render(&Report::from(vec![hostile]));
    assert!(!page.contains("<script>alert"), "{page}");
    assert!(page.contains("&lt;script&gt;"));
    assert!(page.contains("&amp;"));
}

#[test]
fn a_failing_case_is_rendered_before_a_passing_one() {
    let page = render(&Report::from(vec![outcome("passing", 5, true), outcome("failing", 8, false)]));
    assert!(row_at(&page, "failing") < row_at(&page, "passing"));
}

#[test]
fn a_tolerated_failure_sorts_between_a_real_one_and_a_pass() {
    let tolerated = Outcome { allow_fail: true, ..outcome("tolerated", 3, false) };
    let page = render(&Report::from(vec![outcome("passing", 5, true), tolerated, outcome("failing", 8, false)]));
    assert!(row_at(&page, "failing") < row_at(&page, "tolerated") && row_at(&page, "tolerated") < row_at(&page, "passing"));
}

#[test]
fn an_empty_report_renders_without_dividing_by_anything() {
    assert!(render(&Report::from(Vec::new())).contains("0/0"));
}

#[test]
fn a_passing_case_can_be_unfolded_to_see_what_it_did() {
    let page = page_with(outcome("quiet", 5, true), observations("ready\n"));
    assert!(page.contains("<details>") && page.contains("what it did"), "{page}");
    assert!(page.contains("ready"), "{page}");
}

#[test]
fn a_huge_stream_is_capped_and_says_by_how_much() {
    let flood = "x".repeat(50_000);
    let page = page_with(outcome("noisy", 5, true), observations(&flood));
    assert!(page.len() < 20_000, "{} bytes", page.len());
    assert!(page.contains("50000 bytes in all"));
}

#[test]
fn calls_are_tallied_rather_than_listed_one_by_one() {
    let mut observed = observations("");
    let call = |args: &str, rank: u32| Call {
        bin: "git".into(),
        args: vec![args.into()],
        call: rank,
        key: "git".into(),
        catch_all: false,
        passthrough: false,
        exit: 0,
    };
    observed.calls = vec![call("status", 1), call("log", 2)];
    let page = page_with(outcome("a", 5, true), observed);
    assert!(page.contains("git ×2"), "{page}");
}

#[test]
fn no_script_is_involved() {
    let page = page_with(outcome("a", 5, true), observations("x"));

    assert!(
        !page.contains("<script") && !page.contains("onclick"),
        "`<details>` is native and every browser has folded with it for years. A report is read \
         from a CI artefact, sometimes with no network, and this page has never needed \
         JavaScript:\n{page}"
    );
}

#[test]
fn a_failure_is_readable_without_unfolding_anything() {
    let mut broken = outcome("broken", 8, false);
    broken.diffs = vec![Diff {
        path: "expect.exit_code".to_string(),
        expected: "0".to_string(),
        got: "1".to_string(),
    }];
    let page = page_with(broken, observations("some output"));

    let verdict = page.find("expect.exit_code").unwrap();
    let fold = page.find("<details>").unwrap();

    assert!(
        verdict < fold,
        "the diffs come before the fold and outside it. Folding a verdict away to tidy the page \
         would trade the one thing a report exists for:\n{page}"
    );
}

#[test]
fn a_subjects_markup_cannot_escape_the_fold_either() {
    let page = page_with(
        outcome("a", 5, true),
        observations("<script>alert('x')</script>"),
    );

    assert!(
        !page.contains("<script>alert"),
        "a stream carries whatever the tested program printed, and the subject is by \
         definition the thing not yet trusted:\n{page}"
    );
    assert!(
        page.contains("&lt;script&gt;"),
        "escaped, not dropped:\n{page}"
    );
}
