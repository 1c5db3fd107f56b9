use gaveldrop::case::Case;
use gaveldrop::fake::rule::{Match, Response, Rule, Scenario};
use gaveldrop::iso::{
    IsoError, Layout, defined, directories, environment, grounded, linked, scenario_for, search_path,
    with_the_cases_own,
};
use gaveldrop::strmap::StrMap;

const ROOT: &str = "/tmp/gaveldrop-case-root";

fn case() -> Case {
    let mut case = Case::default();
    case.name = "t".to_string();
    case.weight = 1;
    case.setup.run = Some(vec!["true".to_string()]);
    case
}

fn env_of(env: &[(String, String)]) -> std::collections::BTreeMap<String, String> {
    env.iter().cloned().collect()
}

fn isolation_env(case: &Case, clear_env: &[String]) -> Result<Vec<(String, String)>, IsoError> {
    let layout = Layout::under(ROOT);
    let path = search_path(&layout.bin, &directories("/usr/bin:/bin"), &[false, false])?;
    let env = environment(&layout, path, &case.name, 40001, 40002, "/work/project");
    with_the_cases_own(env, case, clear_env)
}

fn passthrough_case(with_fallback: bool) -> Case {
    let mut git = Response::default();
    git.exec_target = Some("real".to_string());
    if with_fallback {
        git.stdout = Some("the fallback".to_string());
        git.exit = Some(0);
    }
    let mut last = Response::default();
    last.exit = Some(127);
    let mut case = case();
    case.fake = Some(Scenario {
        render: None,
        rules: vec![
            Rule { matcher: Match { bin: Some("git".to_string()), ..Match::default() }, response: git },
            Rule { matcher: Match::default(), response: last },
        ],
    });
    case
}

#[test]
fn the_home_directory_points_inside_the_isolated_root() {
    let env = env_of(&isolation_env(&case(), &[]).unwrap());

    for key in ["HOME", "XDG_CONFIG_HOME", "XDG_DATA_HOME", "XDG_STATE_HOME"] {
        assert!(
            env[key].starts_with(ROOT),
            "{key} must point inside the isolated root. Got: {}",
            env[key]
        );
    }
}

#[test]
fn the_fake_directory_comes_first_on_path() {
    let env = env_of(&isolation_env(&case(), &[]).unwrap());

    let first = env["PATH"].split(':').next().unwrap().to_string();
    assert_eq!(first, format!("{ROOT}/bin"), "the fake directory must be first");
    assert!(env["PATH"].split(':').count() > 1, "the rest of PATH must survive");
}

#[test]
fn the_engine_variables_are_set_for_the_fake() {
    let env = env_of(&isolation_env(&case(), &[]).unwrap());

    for key in [
        "GAVELDROP_SCENARIO",
        "GAVELDROP_STATE",
        "GAVELDROP_JOURNAL",
        "GAVELDROP_DIR",
        "GAVELDROP_CASE",
    ] {
        assert!(env.contains_key(key), "{key} must be set");
    }
    assert_eq!(env["GAVELDROP_CASE"], "t");
    assert_eq!(env["GAVELDROP_JOURNAL"], format!("{ROOT}/journal.jsonl"));
}

#[test]
fn the_scenario_is_written_even_when_the_case_has_no_fake_block() {
    let scenario = scenario_for(None, false).unwrap();

    assert!(
        scenario.validate().is_ok(),
        "a case with no `fake:` block still gets a catch-all-only scenario"
    );
    assert_eq!(scenario.rules[0].response.exit, Some(127));
}

#[test]
fn variables_that_could_bypass_the_redirection_are_cleared_not_overridden() {
    let cleared = ["MYTOOL_CONFIG_DIR".to_string()];
    let env = env_of(&isolation_env(&case(), &cleared).unwrap());

    assert!(
        !env.contains_key("MYTOOL_CONFIG_DIR"),
        "a variable that could short-circuit isolation must be removed, not given a new value"
    );
}

#[test]
fn every_redirected_directory_exists_before_the_subject_runs() {
    let layout = Layout::under(ROOT);
    let created = layout.directories();
    let env = env_of(&isolation_env(&case(), &[]).unwrap());

    for key in ["XDG_CONFIG_HOME", "XDG_DATA_HOME", "XDG_STATE_HOME", "XDG_CACHE_HOME"] {
        assert!(created.contains(&env[key]), "{key} is pointed somewhere that is never created");
    }
}

#[test]
fn hiding_a_tool_removes_the_directory_that_holds_it() {
    let dirs = directories("/with/it:/without/it");
    let path = search_path("/root/bin", &dirs, &[true, false]).unwrap();

    assert_eq!(path, "/root/bin:/without/it");
}

#[test]
fn hiding_nothing_leaves_the_search_path_exactly_as_it_was() {
    let dirs = directories("/one:/two");
    let path = search_path("/root/bin", &dirs, &[false, false]).unwrap();

    assert_eq!(path, "/root/bin:/one:/two", "every case that does not use the key must be untouched");
}

#[test]
fn a_case_can_hide_a_tool_the_project_fakes() {
    let bins = ["git".to_string(), "gh".to_string()];
    let laid = linked(&bins, &["git".to_string()]);

    assert_eq!(laid, vec!["gh".to_string()], "the more specific declaration wins, and only the named tool is withheld");
}

#[test]
fn a_passthrough_rule_becomes_its_declared_fallback() {
    let scenario = scenario_for(passthrough_case(true).fake, true).unwrap();

    assert_eq!(scenario.rules[0].response.exec_target, None, "no passthrough survives");
    assert_eq!(scenario.rules[0].response.stdout.as_deref(), Some("the fallback"));
}

#[test]
fn a_passthrough_rule_with_no_fallback_is_refused_rather_than_answered_emptily() {
    let message = match scenario_for(passthrough_case(false).fake, true) {
        Ok(scenario) => panic!("a rule with nothing to answer must not appear to work: {scenario:?}"),
        Err(error) => error.message(),
    };
    assert!(message.contains("git"), "naming the rule is the whole diagnostic: {message}");
    assert!(message.contains("stdout"), "and what to add: {message}");
}

#[test]
fn passthrough_survives_when_the_project_does_not_refuse_it() {
    let scenario = scenario_for(passthrough_case(false).fake, false).unwrap();

    assert_eq!(scenario.rules[0].response.exec_target.as_deref(), Some("real"));
}

#[test]
fn the_case_document_is_never_rewritten() {
    let case = passthrough_case(true);
    let before = format!("{:?}", case.fake);
    let _ = scenario_for(case.fake.clone(), true).unwrap();

    assert_eq!(format!("{:?}", case.fake), before);
}

#[test]
fn grounding_leaves_the_rules_before_a_refusal_grounded_and_the_rest_untouched() {
    let mut scenario = passthrough_case(true).fake.unwrap();
    let mut bare = Response::default();
    bare.exec_target = Some("real".to_string());
    scenario.rules.push(Rule { matcher: Match::default(), response: bare });

    let error = grounded(&mut scenario).unwrap_err();

    assert!(error.message().contains("(the catch-all)"));
    assert_eq!(scenario.rules[0].response.exec_target, None);
    assert_eq!(scenario.rules[2].response.exec_target.as_deref(), Some("real"));
}

#[test]
fn a_case_cannot_redefine_what_isolation_owns() {
    let mut case = case();
    case.setup.env.insert("HOME".to_string(), "/home/me".to_string());

    let error = isolation_env(&case, &[]).unwrap_err();
    let message = error.message();
    assert!(message.contains("HOME"), "{message}");
    assert!(message.contains("isolation defines it"), "{message}");
    assert!(message.contains("GAVELDROP_CASE, GAVELDROP_DIR"), "the names are listed in order: {message}");
}

#[test]
fn a_case_cannot_set_what_the_project_asks_to_clear() {
    let mut case = case();
    case.setup.env.insert("MYTOOL_CONFIG_DIR".to_string(), "x".to_string());

    let error = isolation_env(&case, &["MYTOOL_CONFIG_DIR".to_string()]).unwrap_err();
    assert!(error.message().contains("clear_env"), "{}", error.message());
}

#[test]
fn a_declared_variable_naming_nothing_is_refused_rather_than_set_wrong() {
    let mut case = case();
    case.setup.env.insert("MYTOOL_DIR".to_string(), "$GAVELDROP_PROJEKT/x".to_string());

    let error = isolation_env(&case, &[]).unwrap_err();
    let message = error.message();
    assert!(message.starts_with("setup.env `MYTOOL_DIR`: unknown variable $GAVELDROP_PROJEKT"), "{message}");
}

#[test]
fn a_case_variable_resolves_against_what_isolation_defines() {
    let mut case = case();
    case.setup.env.insert("MYTOOL_DIR".to_string(), "$GAVELDROP_PROJECT/tools".to_string());
    case.setup.env.insert("MYTOOL_FEATURE".to_string(), "true".to_string());

    let env = isolation_env(&case, &[]).unwrap();
    let n = env.len();
    assert_eq!(env[n - 2], ("MYTOOL_DIR".to_string(), "/work/project/tools".to_string()));
    assert_eq!(env[n - 1], ("MYTOOL_FEATURE".to_string(), "true".to_string()));
    assert_eq!(env_of(&env)["HOME"], ROOT, "a case's own variables never move the home");
}

#[test]
fn the_ports_are_written_in_decimal() {
    let env = env_of(&isolation_env(&case(), &[]).unwrap());

    assert_eq!(env["GAVELDROP_PORT"], "40001");
    assert_eq!(env["GAVELDROP_FAKE_PORT"], "40002");
    assert_eq!(env["GAVELDROP_PROJECT"], "/work/project");
}

#[test]
fn a_root_ending_in_a_slash_gets_no_second_one() {
    let layout = Layout::under("/tmp/x/");

    assert_eq!(layout.bin, "/tmp/x/bin");
    assert_eq!(layout.data_home, "/tmp/x/.local/share");
}

#[test]
fn an_unset_search_path_is_one_empty_directory() {
    assert_eq!(directories(""), vec![String::new()]);
    assert_eq!(directories("a::b"), vec!["a".to_string(), String::new(), "b".to_string()]);
}

#[test]
fn a_search_path_entry_holding_the_separator_is_refused() {
    let error = search_path("/root:odd/bin", &[], &[]).unwrap_err();

    assert!(error.message().starts_with("preparing the isolated environment at /root:odd/bin: "));
}

#[test]
fn what_isolation_defines_is_readable_by_name() {
    let env = isolation_env(&case(), &[]).unwrap();
    let names: StrMap<String> = defined(&env);

    assert_eq!(names.get("HOME"), Some(&ROOT.to_string()));
    assert_eq!(names.get("PATH"), Some(&format!("{ROOT}/bin:/usr/bin:/bin")));
    assert_eq!(names.get("NOT_DEFINED"), None);
}
