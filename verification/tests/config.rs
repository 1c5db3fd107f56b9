use gaveldrop::config::{ConfigError, Config, Shard, duplicate_names, limit_for, listed, parse_shard, select, DEFAULT_TIMEOUT_SECONDS};

fn paths(names: &[&str]) -> Vec<String> {
    names.iter().map(|n| n.to_string()).collect()
}

fn only(fragments: &[&str]) -> Vec<String> {
    fragments.iter().map(|f| f.to_string()).collect()
}

#[test]
fn a_repeated_name_is_reported_with_every_file_claiming_it() {
    let named = vec![
        ("dupe".to_string(), "cases/a.yaml".to_string()),
        ("fine".to_string(), "cases/b.yaml".to_string()),
        ("dupe".to_string(), "cases/c.yaml".to_string()),
    ];

    let collisions = duplicate_names(&named);

    assert_eq!(
        collisions,
        vec![("dupe".to_string(), vec!["cases/a.yaml".to_string(), "cases/c.yaml".to_string()])],
        "both files, because the fix is to open one of them"
    );
}

#[test]
fn every_repeated_name_is_reported_together() {
    let named = vec![
        ("a".to_string(), "1.yaml".to_string()),
        ("a".to_string(), "2.yaml".to_string()),
        ("b".to_string(), "3.yaml".to_string()),
        ("b".to_string(), "4.yaml".to_string()),
    ];

    assert_eq!(duplicate_names(&named).len(), 2, "as many runs as there are collisions would be too many");
}

#[test]
fn a_suite_where_every_name_is_distinct_has_no_collisions() {
    let named = vec![("a".to_string(), "1.yaml".to_string()), ("b".to_string(), "2.yaml".to_string())];

    assert!(duplicate_names(&named).is_empty());
}

#[test]
fn a_list_of_files_reads_as_a_sentence() {
    assert_eq!(listed(&["a".to_string()]), "a");
    assert_eq!(listed(&["a".to_string(), "b".to_string()]), "a and b");
    assert_eq!(
        listed(&["a".to_string(), "b".to_string(), "c".to_string()]),
        "a, b and c",
        "`a and b and c` is the wording that makes a reader wonder whether the tool is finished"
    );
}

#[test]
fn every_case_lands_in_exactly_one_shard() {
    let all = paths(&["a", "b", "c", "d", "e", "f", "g"]);
    let mut seen: Vec<String> = Vec::new();
    for index in 0..3 {
        seen.extend(select(all.clone(), Some(Shard { index, of: 3 }), &[]).unwrap());
    }
    seen.sort();
    assert_eq!(seen, all);
}

#[test]
fn shards_are_interleaved_rather_than_contiguous() {
    let all = paths(&["a", "b", "c", "d", "e", "f"]);
    assert_eq!(select(all, Some(Shard { index: 0, of: 3 }), &[]).unwrap(), paths(&["a", "d"]));
}

#[test]
fn a_shard_index_outside_the_range_is_an_error_naming_the_range() {
    let error = select(paths(&["a"]), Some(Shard { index: 3, of: 3 }), &[]).unwrap_err();
    assert_eq!(error.message(), "there is no shard 3 of 3. Shards are 0-indexed, so the last one is 2");
}

#[test]
fn a_shard_of_zero_is_an_error_rather_than_a_division() {
    assert!(select(paths(&["a"]), Some(Shard { index: 0, of: 0 }), &[]).is_err());
}

#[test]
fn a_fragment_matching_nothing_is_an_error_even_when_another_matched() {
    let all = paths(&["cases/login.yaml", "cases/order.yaml"]);
    let error = select(all, None, &only(&["login", "lgout"])).unwrap_err();
    match &error {
        ConfigError::NothingSelected { fragments } => assert_eq!(fragments, &vec!["lgout".to_string()]),
        other => panic!("expected NothingSelected, got {other:?}"),
    }
    assert!(error.message().contains("lgout"), "the typo has to be named: {}", error.message());
}

#[test]
fn a_filter_applies_before_the_shard_so_the_partition_is_of_what_was_asked_for() {
    let all = paths(&["keep-a", "drop-1", "keep-b", "drop-2"]);
    let first = select(all.clone(), Some(Shard { index: 0, of: 2 }), &only(&["keep"])).unwrap();
    let second = select(all, Some(Shard { index: 1, of: 2 }), &only(&["keep"])).unwrap();
    assert_eq!(first, paths(&["keep-a"]));
    assert_eq!(second, paths(&["keep-b"]));
}

#[test]
fn several_fragments_keep_every_case_any_of_them_matches() {
    let all = paths(&["cases/login.yaml", "cases/order.yaml", "cases/logout.yaml"]);
    assert_eq!(
        select(all, None, &only(&["login", "logout"])).unwrap(),
        paths(&["cases/login.yaml", "cases/logout.yaml"])
    );
}

#[test]
fn a_case_can_raise_or_remove_the_projects_limit() {
    let timed = |project: Option<u64>, case: Option<u64>| {
        let config = Config { timeout: project, ..Default::default() };
        limit_for(&config, case)
    };
    assert_eq!(timed(None, None), Some(DEFAULT_TIMEOUT_SECONDS));
    assert_eq!(timed(Some(30), None), Some(30));
    assert_eq!(timed(Some(30), Some(900)), Some(900));
    assert_eq!(timed(Some(0), None), None);
    assert_eq!(timed(Some(30), Some(0)), None);
}

#[test]
fn a_shard_is_read_as_index_over_count() {
    assert_eq!(parse_shard(None).unwrap(), None);
    assert_eq!(parse_shard(Some(" 1 / 3 ")).unwrap(), Some(Shard { index: 1, of: 3 }));
    assert_eq!(parse_shard(Some("1")).unwrap_err(), "--shard wants `N/M`, and \"1\" has no `/`");
    assert_eq!(parse_shard(Some("2/")).unwrap_err(), "--shard count \"\" is not a number");
    assert_eq!(parse_shard(Some("x/2")).unwrap_err(), "--shard index \"x\" is not a number");
}

#[test]
fn one_shard_of_one_is_every_case() {
    let all = paths(&["a", "b", "c"]);

    assert_eq!(
        select(all.clone(), Some(Shard { index: 0, of: 1 }), &[]).unwrap(),
        all,
        "the default path must not be a special case in the code"
    );
}

#[test]
fn no_shard_at_all_is_every_case() {
    let all = paths(&["a", "b"]);
    assert_eq!(select(all.clone(), None, &[]).unwrap(), all);
}

#[test]
fn only_keeps_the_cases_whose_path_contains_the_fragment() {
    let all = paths(&["tests/cases/an-order.yaml", "tests/cases/a-service.yaml"]);

    assert_eq!(
        select(all, None, &only(&["order"])).unwrap(),
        paths(&["tests/cases/an-order.yaml"])
    );
}

#[test]
fn only_matching_nothing_is_an_error_naming_the_fragment() {
    let error = select(paths(&["a.yaml"]), None, &only(&["nowhere"])).unwrap_err();

    assert!(
        error.message().contains("nowhere"),
        "a filter that matched nothing must say so: an empty run reports success, which is the \
         worst possible answer to a mistyped filter: {}",
        error.message()
    );
}

#[test]
fn every_fragment_that_matched_nothing_is_named_at_once() {
    let error = select(paths(&["a.yaml"]), None, &only(&["nope", "nor-this"])).unwrap_err();
    let said = error.message();

    assert!(
        said.contains("nope") && said.contains("nor-this"),
        "fixing one and rerunning to discover the other is two runs where one would do: {said}"
    );
}
