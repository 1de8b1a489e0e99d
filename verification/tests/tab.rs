use frext::tab::Tab;

#[test]
fn untitled_tab_is_clean_and_named_untitled() {
    let tab = Tab::new_untitled(1);
    assert!(!tab.is_dirty());
    assert_eq!(tab.title(), "untitled");
}

#[test]
fn editing_marks_tab_dirty_with_bullet_prefix() {
    let mut tab = Tab::new_untitled(1);
    tab.text.push_str("hi");
    assert!(tab.is_dirty());
    assert_eq!(tab.title(), "\u{2022} untitled");
}

#[test]
fn file_tab_uses_file_name_and_is_clean_when_unchanged() {
    let tab = Tab::from_file(2, "/tmp/notes.txt".into(), "body".to_owned());
    assert!(!tab.is_dirty());
    assert_eq!(tab.title(), "notes.txt");
}

#[test]
fn file_tab_becomes_dirty_after_edit() {
    let mut tab = Tab::from_file(2, "/tmp/notes.txt".into(), "body".to_owned());
    tab.text.push_str(" more");
    assert!(tab.is_dirty());
    assert_eq!(tab.title(), "\u{2022} notes.txt");
}

#[test]
fn untitled_tab_never_reloads() {
    let mut tab = Tab::new_untitled(1);
    assert!(!tab.observe_disk_len(Some(3)));
}

#[test]
fn clean_tab_reloads_when_file_grows_on_disk() {
    let mut tab = Tab::from_file(1, "/tmp/grow.txt".into(), "one".to_owned());
    assert_eq!(tab.disk_len, Some(3));
    assert!(tab.observe_disk_len(Some(11)));
    assert!(tab.apply_reload(11, Some("one and two".to_owned())));
    assert_eq!(tab.text, "one and two");
    assert!(!tab.is_dirty());
    assert_eq!(tab.disk_len, Some(11));
}

#[test]
fn dirty_tab_is_not_clobbered_by_external_change() {
    let mut tab = Tab::from_file(1, "/tmp/dirty.txt".into(), "original".to_owned());
    tab.text = "my local edits".to_owned();
    assert!(!tab.observe_disk_len(Some(26)));
    assert_eq!(tab.text, "my local edits");
    assert_eq!(tab.disk_len, Some(26));
    // The same size is not reported again.
    assert!(!tab.observe_disk_len(Some(26)));
}

#[test]
fn unchanged_file_does_not_reload() {
    let mut tab = Tab::from_file(1, "/tmp/same.txt".into(), "stable".to_owned());
    assert!(!tab.observe_disk_len(Some(6)));
    assert!(!tab.observe_disk_len(None));
}

#[test]
fn failed_reread_keeps_the_buffer() {
    let mut tab = Tab::from_file(1, "/tmp/gone.txt".into(), "keep".to_owned());
    assert!(!tab.apply_reload(9, None));
    assert_eq!(tab.text, "keep");
    assert_eq!(tab.disk_len, Some(9));
}
