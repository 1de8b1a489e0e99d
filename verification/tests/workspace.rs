use frext::path_order::path_less;
use frext::workspace::{sort_by_name, split_entries, Workspace};

#[test]
fn set_expanded_reports_changes() {
    let mut ws = Workspace::new(String::from("/root"));
    let dir = "/root/sub";

    assert!(!ws.is_expanded(dir));
    assert!(ws.set_expanded(dir, true)); // changed
    assert!(ws.is_expanded(dir));
    assert!(!ws.set_expanded(dir, true)); // no-op
    assert!(ws.set_expanded(dir, false)); // changed
    assert!(!ws.is_expanded(dir));
    assert!(!ws.set_expanded(dir, false)); // no-op
}

#[test]
fn expanded_paths_compare_by_components() {
    let mut ws = Workspace::new(String::from("/root"));
    assert!(ws.set_expanded("/root/sub/", true));
    assert!(ws.is_expanded("/root//sub"));
    assert!(!ws.set_expanded("/root/./sub", true));
    assert_eq!(ws.expanded().len(), 1);
}

#[test]
fn from_parts_drops_duplicate_folders() {
    let ws = Workspace::from_parts(
        String::from("/p"),
        vec!["/p/a".to_owned(), "/p/b".to_owned(), "/p/a/".to_owned()],
    );
    assert_eq!(ws.root(), "/p");
    assert_eq!(ws.expanded(), &vec!["/p/a".to_owned(), "/p/b".to_owned()]);
}

#[test]
fn migrate_dirs_moves_a_renamed_subtree() {
    let mut ws = Workspace::from_parts(
        String::from("/p"),
        vec!["/p/src".to_owned(), "/p/src/inner".to_owned(), "/p/docs".to_owned()],
    );
    ws.migrate_dirs("/p/src", "/p/lib");
    assert!(ws.is_expanded("/p/lib"));
    assert!(ws.is_expanded("/p/lib/inner"));
    assert!(ws.is_expanded("/p/docs"));
    assert!(!ws.is_expanded("/p/src"));
}

#[test]
fn retain_dirs_reports_whether_anything_was_dropped() {
    let mut ws = Workspace::from_parts(String::from("/p"), vec!["/p/a".to_owned(), "/p/b".to_owned()]);
    assert!(!ws.retain_dirs(&vec![true, true]));
    assert!(ws.retain_dirs(&vec![false, true]));
    assert_eq!(ws.expanded(), &vec!["/p/b".to_owned()]);
}

#[test]
fn read_dir_split_sorts_and_separates() {
    let entries = vec![
        ("/d/Zebra".to_owned(), true),
        ("/d/apple".to_owned(), true),
        ("/d/Banana.txt".to_owned(), false),
        ("/d/avocado.txt".to_owned(), false),
    ];
    let (dirs, files) = split_entries(entries);
    assert_eq!(dirs, vec!["/d/apple", "/d/Zebra"]);
    assert_eq!(files, vec!["/d/avocado.txt", "/d/Banana.txt"]);
}

#[test]
fn sorting_by_name_is_stable_for_equal_names() {
    let sorted = sort_by_name(vec![
        "/b/README".to_owned(),
        "/a/x".to_owned(),
        "/a/readme".to_owned(),
        "/c/Readme".to_owned(),
    ]);
    assert_eq!(sorted, vec!["/b/README", "/a/readme", "/c/Readme", "/a/x"]);
    assert!(sort_by_name(Vec::new()).is_empty());
}

#[test]
fn expanded_folders_are_kept_in_path_order() {
    let mut ws = Workspace::new(String::from("/r"));
    ws.set_expanded("/r/b", true);
    ws.set_expanded("/r/a/x", true);
    ws.set_expanded("/r/a", true);
    ws.set_expanded("/r/..", true);
    ws.set_expanded("/r/B", true);
    assert_eq!(ws.expanded(), &vec!["/r/..", "/r/B", "/r/a", "/r/a/x", "/r/b"]);
    let back = Workspace::from_parts(String::from("/r"), vec!["/r/z".to_owned(), "/r/c".to_owned()]);
    assert_eq!(back.expanded(), &vec!["/r/c", "/r/z"]);
}

#[test]
fn paths_sort_by_component() {
    assert!(path_less("/a", "a"));
    assert!(path_less("", "/"));
    assert!(path_less("./x", "../x"));
    assert!(path_less("a/b", "a/b/c"));
    assert!(path_less("a/b", "a.b"));
    assert!(!path_less("a//b", "a/b"));
}
