use frext::path::{
    file_name_of, join_exec, parent_exec, path_key_of, same_path_exec, starts_with_exec, str_eq, strip_prefix_exec,
};
use frext::text::{byte_len_of, char_width_of, decimal_of};

#[test]
fn paths_compare_by_components() {
    assert!(same_path_exec("a//b/./c/", "a/b/c"));
    assert!(!same_path_exec("/a/b", "a/b"));
    assert!(!same_path_exec("/a/b", "/a/b/.."));
    let k = path_key_of("/x/./y//");
    assert!(k.absolute);
    assert_eq!(k.parts, vec!["x", "y"]);
}

#[test]
fn prefixes_follow_whole_components() {
    assert!(starts_with_exec("/w/src/main.rs", "/w/src"));
    assert!(!starts_with_exec("/w/srcx/main.rs", "/w/src"));
    assert_eq!(strip_prefix_exec("/w/src/a/b.rs", "/w/"), Some("src/a/b.rs".to_owned()));
    assert_eq!(strip_prefix_exec("/w", "/w"), Some(String::new()));
    assert_eq!(strip_prefix_exec("/etc/hosts", "/w"), None);
}

#[test]
fn names_parents_and_joins() {
    assert_eq!(file_name_of("/w/notes.txt"), Some("notes.txt".to_owned()));
    assert_eq!(file_name_of("/w/.."), None);
    assert_eq!(file_name_of("/"), None);
    assert_eq!(parent_exec("/w/notes.txt"), Some("/w".to_owned()));
    assert_eq!(parent_exec("notes.txt"), Some(String::new()));
    assert_eq!(parent_exec("/"), None);
    assert_eq!(join_exec("/w", "a.txt"), "/w/a.txt");
    assert_eq!(join_exec("/w/", "a.txt"), "/w/a.txt");
    assert_eq!(join_exec("", "a.txt"), "a.txt");
    assert_eq!(join_exec("/w", "/etc"), "/etc");
}

#[test]
fn text_helpers_agree_with_std() {
    assert!(str_eq("é", "é"));
    assert!(!str_eq("e", "é"));
    assert_eq!(byte_len_of("héllo"), 6);
    assert_eq!(char_width_of('a'), 1);
    assert_eq!(char_width_of('é'), 2);
    assert_eq!(char_width_of('€'), 3);
    assert_eq!(char_width_of('😀'), 4);
    assert_eq!(decimal_of(0), "0");
    assert_eq!(decimal_of(1907), "1907");
    assert_eq!(decimal_of(u64::MAX), u64::MAX.to_string());
}

#[test]
fn a_leading_dot_is_kept_as_a_component() {
    assert!(!same_path_exec("./proj", "proj"));
    assert!(same_path_exec("./a/./b", "./a/b"));
    assert!(same_path_exec(".//a", "./a"));
    assert_eq!(path_key_of("./a").parts, vec![".", "a"]);
    assert_eq!(file_name_of("."), None);
    assert_eq!(parent_exec("./a"), Some(".".to_owned()));
    assert!(!starts_with_exec("./a/b", "a"));
    assert_eq!(strip_prefix_exec("./a/b", "./a"), Some("b".to_owned()));
}
