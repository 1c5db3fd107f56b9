use gaveldrop::iso::snapshot::{
    Change, FileChange, MAX_CAPTURED_BYTES, Snapshot, capturable, fingerprint, is_engine_bookkeeping,
};

fn tree(files: &[(&str, &str)]) -> Snapshot {
    let mut snapshot = Snapshot::default();
    for (path, body) in files {
        if !is_engine_bookkeeping(path) {
            snapshot.record(path.to_string(), fingerprint(body.as_bytes()));
        }
    }
    snapshot
}

fn find<'a>(changes: &'a [Change], path: &str) -> &'a Change {
    changes.iter().find(|change| change.path == path).expect("reported")
}

#[test]
fn a_created_file_is_reported_with_its_content() {
    let before = tree(&[]);
    let after = tree(&[(".config/k9s/plugins.yaml", "log-view-pod\n")]);

    let changed = before.changes_since(&after);
    let effect = find(&changed, ".config/k9s/plugins.yaml");
    assert_eq!(effect.change, FileChange::Created);
    assert_eq!(effect.size, 13);
    assert!(capturable(effect.size), "small enough for its content to be read back");
}

#[test]
fn an_untouched_file_is_not_reported() {
    let before = tree(&[("kept.txt", "same")]);
    let after = tree(&[("kept.txt", "same")]);

    assert!(before.changes_since(&after).is_empty());
}

#[test]
fn a_modified_file_is_reported_as_modified() {
    let before = tree(&[("config.yaml", "before")]);
    let after = tree(&[("config.yaml", "after")]);

    assert_eq!(find(&before.changes_since(&after), "config.yaml").change, FileChange::Modified);
}

#[test]
fn a_removed_file_is_reported_with_no_content() {
    let before = tree(&[("doomed.txt", "bye")]);
    let after = tree(&[]);

    let changed = before.changes_since(&after);
    assert_eq!(find(&changed, "doomed.txt").change, FileChange::Removed);
    assert_eq!(find(&changed, "doomed.txt").size, 0);
}

#[test]
fn a_file_that_only_changed_content_at_equal_size_is_still_detected() {
    let before = tree(&[("same-size.txt", "aaaa")]);
    let after = tree(&[("same-size.txt", "bbbb")]);

    assert_eq!(find(&before.changes_since(&after), "same-size.txt").change, FileChange::Modified);
}

#[test]
fn an_oversized_file_is_not_read_back() {
    assert!(capturable(MAX_CAPTURED_BYTES as u64));
    assert!(!capturable(MAX_CAPTURED_BYTES as u64 + 1));
}

#[test]
fn the_engine_s_own_bookkeeping_is_never_reported() {
    let before = tree(&[]);
    let after = tree(&[
        ("journal.jsonl", "{}\n"),
        ("scenario.yaml", "rules: []\n"),
        ("state/git.count", "1"),
        ("bin/git", ""),
        ("real.txt", "the subject's own work"),
    ]);

    let paths: Vec<String> = before.changes_since(&after).into_iter().map(|change| change.path).collect();
    assert_eq!(paths, vec!["real.txt".to_string()]);
}

#[test]
fn changes_come_in_path_order_whatever_their_kind() {
    let before = tree(&[("b.txt", "gone"), ("d.txt", "old")]);
    let after = tree(&[("a.txt", "new"), ("c.txt", "new"), ("d.txt", "new")]);

    let changed = before.changes_since(&after);
    let listed: Vec<(String, FileChange)> = changed.into_iter().map(|change| (change.path, change.change)).collect();
    assert_eq!(
        listed,
        vec![
            ("a.txt".to_string(), FileChange::Created),
            ("b.txt".to_string(), FileChange::Removed),
            ("c.txt".to_string(), FileChange::Created),
            ("d.txt".to_string(), FileChange::Modified),
        ]
    );
}
