use slowcatch::integrations::post_edit_state::{
    entry_counts, read_touched_paths, touched_entries, PostEditEntry, MAX_STATE_AGE_SECONDS,
};

const NOW: u64 = 1_700_000_000;

fn note(entries: &mut Vec<PostEditEntry>, turn: &str, paths: &[&str]) {
    let paths: Vec<String> = paths.iter().map(|path| path.to_string()).collect();
    entries.extend(touched_entries(Some("s1"), Some(turn), Some("C:\\repo"), &paths, NOW));
}

#[test]
fn state_reader_filters_session_turn_and_dedupes_paths() {
    let mut entries: Vec<PostEditEntry> = Vec::new();
    note(&mut entries, "t1", &["C:\\repo\\a.rs", "C:\\repo\\a.rs"]);
    note(&mut entries, "t2", &["C:\\repo\\b.rs"]);

    let paths = read_touched_paths(&entries, Some("s1"), Some("t1"), NOW);

    assert_eq!(paths, vec!["C:\\repo\\a.rs"]);
}

#[test]
fn stale_entries_are_ignored() {
    let entry = PostEditEntry {
        session_id: Some("s1".to_string()),
        turn_id: Some("t1".to_string()),
        cwd: Some("C:\\repo".to_string()),
        path: "C:\\repo\\old.rs".to_string(),
        timestamp_unix: 1,
    };

    let paths = read_touched_paths(&vec![entry], Some("s1"), Some("t1"), NOW);

    assert!(paths.is_empty());
}

#[test]
fn entries_count_for_a_day() {
    let mut entries: Vec<PostEditEntry> = Vec::new();
    note(&mut entries, "t1", &["a.rs"]);

    assert_eq!(entries[0].timestamp_unix, NOW);
    assert_eq!(entries[0].cwd.as_deref(), Some("C:\\repo"));
    assert!(entry_counts(&entries[0], Some("s1"), Some("t1"), NOW + MAX_STATE_AGE_SECONDS));
    assert!(!entry_counts(&entries[0], Some("s1"), Some("t1"), NOW + MAX_STATE_AGE_SECONDS + 1));
    assert!(entry_counts(&entries[0], Some("s1"), Some("t1"), NOW - 5));
    assert!(!entry_counts(&entries[0], None, Some("t1"), NOW));
}

#[test]
fn what_is_noted_is_read_in_the_order_of_paths() {
    let mut entries: Vec<PostEditEntry> = Vec::new();
    note(&mut entries, "t1", &["b.rs", "a.rs"]);
    note(&mut entries, "t1", &["a b/c.rs", "a/c.rs", "b.rs", "./a.rs", "a//c.rs"]);

    assert_eq!(
        read_touched_paths(&entries, Some("s1"), Some("t1"), NOW),
        vec!["./a.rs", "a/c.rs", "a b/c.rs", "a.rs", "b.rs"]
    );
}

#[test]
fn noting_again_changes_nothing() {
    let mut entries: Vec<PostEditEntry> = Vec::new();
    note(&mut entries, "t1", &["b.rs", "a.rs"]);
    let before = read_touched_paths(&entries, Some("s1"), Some("t1"), NOW);
    note(&mut entries, "t1", &["b.rs"]);
    note(&mut entries, "t2", &["c.rs"]);

    assert_eq!(read_touched_paths(&entries, Some("s1"), Some("t1"), NOW), before);
    assert_eq!(before, vec!["a.rs", "b.rs"]);
}

#[test]
fn noted_paths_are_added_once_whatever_the_host() {
    let mut entries: Vec<PostEditEntry> = Vec::new();
    note(&mut entries, "t1", &["C:\\repo\\b.rs", "C:\\repo\\a.rs"]);
    note(&mut entries, "t1", &["C:\\repo\\c.rs", "C:\\repo\\a.rs"]);

    assert_eq!(
        read_touched_paths(&entries, Some("s1"), Some("t1"), NOW),
        vec!["C:\\repo\\a.rs", "C:\\repo\\b.rs", "C:\\repo\\c.rs"]
    );
}

#[test]
fn files_that_differ_in_case_are_not_merged() {
    let mut entries: Vec<PostEditEntry> = Vec::new();
    note(&mut entries, "t1", &["C:\\repo\\a.rs", "C:\\repo\\A.rs", "src/B.rs", "src/b.rs"]);

    assert_eq!(
        read_touched_paths(&entries, Some("s1"), Some("t1"), NOW),
        vec!["C:\\repo\\A.rs", "C:\\repo\\a.rs", "src/B.rs", "src/b.rs"]
    );
}
