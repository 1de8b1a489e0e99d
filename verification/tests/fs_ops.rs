use frext::error::FsError;
use frext::fs_ops::{create_target, parent_of, plan_create, plan_rename, rename_target, validate_name};

#[test]
fn validate_name_rejects_empty_dots_and_separators() {
    assert!(validate_name("").is_err());
    assert!(validate_name(".").is_err());
    assert!(validate_name("..").is_err());
    assert!(validate_name("a/b").is_err());
    assert!(validate_name("a\\b").is_err());
    assert!(validate_name("ok.txt").is_ok());
    assert!(validate_name(".gitignore").is_ok());
}

#[test]
fn invalid_name_error_carries_the_name() {
    match validate_name("../escape") {
        Err(FsError::InvalidName(n)) => assert_eq!(n, "../escape"),
        other => panic!("unexpected {other:?}"),
    }
}

#[test]
fn rename_target_stays_in_the_parent() {
    assert_eq!(rename_target("/w/old.txt", "new.txt").unwrap(), ("/w/new.txt".to_owned(), false));
    assert!(matches!(rename_target("/w/a.txt", "../escape"), Err(FsError::InvalidName(_))));
}

#[test]
fn a_path_without_parent_is_reported() {
    match parent_of("/") {
        Err(FsError::NoParent(p)) => assert_eq!(p, "/"),
        other => panic!("unexpected {other:?}"),
    }
    assert_eq!(parent_of("/w/a.txt").unwrap(), "/w");
}

#[test]
fn create_target_joins_a_valid_name() {
    assert_eq!(create_target("/w", "fresh.txt").unwrap(), "/w/fresh.txt");
    assert!(matches!(create_target("/w", "a/b"), Err(FsError::InvalidName(_))));
}

#[test]
fn rename_to_same_name_is_a_noop() {
    let (dest, unchanged) = rename_target("/tmp/rename-same/same.txt", "same.txt").unwrap();
    assert_eq!(dest, "/tmp/rename-same/same.txt");
    assert!(unchanged);
}

#[test]
fn rename_rejects_invalid_name() {
    assert!(matches!(
        rename_target("/tmp/rename-invalid/a.txt", "../escape").unwrap_err(),
        FsError::InvalidName(_)
    ));
}

#[test]
fn rename_refuses_to_clobber_existing() {
    match plan_rename("/w/a.txt", "b.txt", true) {
        Err(FsError::AlreadyExists(d)) => assert_eq!(d, "/w/b.txt"),
        other => panic!("unexpected {other:?}"),
    }
    assert_eq!(plan_rename("/w/a.txt", "b.txt", false).unwrap(), ("/w/b.txt".to_owned(), false));
    assert_eq!(plan_rename("/w/a.txt", "a.txt", true).unwrap(), ("/w/a.txt".to_owned(), true));
}

#[test]
fn create_file_refuses_existing() {
    assert!(matches!(plan_create("/w", "x.txt", true), Err(FsError::AlreadyExists(_))));
    assert_eq!(plan_create("/w", "x.txt", false).unwrap(), "/w/x.txt");
    assert!(matches!(plan_create("/w", "..", false), Err(FsError::InvalidName(_))));
}
