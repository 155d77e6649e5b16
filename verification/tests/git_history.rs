use hotcarpet::git_history::{
    Delta, DeltaPath, DiffLine, blob_text, changed_lines, changed_paths, commit_oids,
    escape_pathspec, floor_accepted,
};

#[test]
fn escapes_fnmatch_metacharacters() {
    assert_eq!(escape_pathspec("src/app.ts"), "src/app.ts");
    assert_eq!(escape_pathspec("pages/[id].tsx"), "pages/\\[id\\].tsx");
    assert_eq!(escape_pathspec("a?b*c"), "a\\?b\\*c");
}

#[test]
fn escapes_backslashes_too() {
    assert_eq!(escape_pathspec("a\\b"), "a\\\\b");
    assert_eq!(escape_pathspec("é[ü"), "é\\[ü");
}

fn ids() -> Vec<String> {
    ["e", "d", "c", "b", "a"].iter().map(|s| s.to_string()).collect()
}

#[test]
fn the_floor_is_inclusive() {
    assert_eq!(commit_oids(ids(), Some("c"), None), vec!["e", "d", "c"]);
    assert_eq!(commit_oids(ids(), Some("e"), None), vec!["e"]);
    assert_eq!(commit_oids(ids(), Some("z"), None), ids());
    assert_eq!(commit_oids(ids(), None, None), ids());
}

#[test]
fn the_limit_counts_from_the_newest() {
    assert_eq!(commit_oids(ids(), None, Some(2)), vec!["e", "d"]);
    assert_eq!(commit_oids(ids(), None, Some(9)), ids());
    assert!(commit_oids(ids(), None, Some(0)).is_empty());
    assert_eq!(commit_oids(ids(), Some("d"), Some(4)), vec!["e", "d"]);
}

#[test]
fn a_floor_is_head_or_an_ancestor() {
    assert!(floor_accepted("a", "a", false));
    assert!(floor_accepted("b", "a", true));
    assert!(!floor_accepted("b", "a", false));
}

#[test]
fn deltas_give_the_new_path_or_else_the_old() {
    let text = |s: &str| DeltaPath::Text(s.to_string());
    let deltas = vec![
        Delta { new_path: text("new"), old_path: text("old") },
        Delta { new_path: DeltaPath::Missing, old_path: text("gone") },
        Delta { new_path: DeltaPath::Unreadable, old_path: text("unused") },
        Delta { new_path: DeltaPath::Missing, old_path: DeltaPath::Missing },
    ];
    assert_eq!(changed_paths(&deltas), vec!["new", "gone"]);
}

#[test]
fn added_lines_are_grouped_by_file() {
    let line = |origin, new_lineno, path: Option<&str>| DiffLine {
        origin,
        new_lineno,
        path: path.map(|p| p.to_string()),
    };
    let lines = vec![
        line('+', Some(3), Some("b")),
        line('-', None, Some("b")),
        line('+', Some(1), Some("a")),
        line(' ', Some(2), Some("a")),
        line('+', Some(7), Some("b")),
        line('+', None, Some("a")),
        line('+', Some(9), None),
    ];
    assert_eq!(
        changed_lines(&lines),
        vec![("b".to_string(), vec![3, 7]), ("a".to_string(), vec![1])],
    );
}

#[test]
fn blobs_that_are_no_text_are_dropped() {
    assert_eq!(blob_text("häl\n".as_bytes()).as_deref(), Some("häl\n"));
    assert_eq!(blob_text(&[0xff, 0xfe]), None);
    assert_eq!(blob_text(&[]).as_deref(), Some(""));
    // A NUL among the first bytes tells binary contents, one further on does not.
    assert_eq!(blob_text(b"a\0b"), None);
    let mut long = vec![b'a'; 8001];
    long[8000] = 0;
    assert_eq!(blob_text(&long).map(|t| t.len()), Some(8001));
    long[7999] = 0;
    assert_eq!(blob_text(&long), None);
}
