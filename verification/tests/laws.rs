use frext::app::FileProbe;
use frext::app::{byte_index, char_index};
use frext::file_icon::{icon_bytes, icon_for_dir, icon_for_file};
use frext::search::SearchQuery;
use frext::tab::Tab;
use frext::app::FrextApp;
use frext::edit_ops::{replace_range, selected_text};
use frext::path::{join_exec, same_path_exec, strip_prefix_exec};
use frext::persistence::RestoredSession;

#[test]
fn a_reversed_selection_selects_the_same_text() {
    let t = "héllo wörld";
    assert_eq!(selected_text(t, 2, 8), selected_text(t, 8, 2));
}

#[test]
fn replacing_a_selection_with_itself_changes_nothing() {
    let mut t = "héllo wörld".to_owned();
    let same = selected_text(&t, 3, 9);
    replace_range(&mut t, 9, 3, &same);
    assert_eq!(t, "héllo wörld");
}

#[test]
fn the_inserted_text_sits_before_the_caret() {
    let mut t = "abcdef".to_owned();
    let caret = replace_range(&mut t, 4, 1, "XYZ");
    assert_eq!(t, "aXYZef");
    assert_eq!(selected_text(&t, 1, caret), "XYZ");
    // The length changes by the inserted minus the selected length.
    assert_eq!(t.chars().count(), 6 - 3 + 3);
}

#[test]
fn stepping_back_undoes_stepping_forward() {
    let mut app = FrextApp::new(RestoredSession::empty());
    app.replace_active_text("x x x x".to_owned());
    app.search_mut().query.pattern = "x".to_owned();
    app.recompute_matches();
    app.step_match(true);
    assert_eq!(app.search().current, Some(1));
    app.step_match(true);
    app.step_match(false);
    assert_eq!(app.search().current, Some(1));
    app.step_match(false);
    app.step_match(false);
    assert_eq!(app.search().current, Some(3));
    app.step_match(true);
    assert_eq!(app.search().current, Some(0));
}

#[test]
fn joining_back_a_relative_path_names_the_same_file() {
    for (p, base) in [("/w/src/a/b.rs", "/w"), ("/w/src/a/b.rs", "/w/src/"), ("a/./b", "a"), ("/w", "/w")] {
        let rel = strip_prefix_exec(p, base).unwrap();
        assert!(same_path_exec(&join_exec(base, &rel), p), "{p} under {base}");
    }
}

#[test]
fn a_renamed_directory_keeps_what_is_under_it_in_place() {
    let rel = strip_prefix_exec("/w/src/a/b.rs", "/w/src").unwrap();
    let moved = join_exec("/w/lib", &rel);
    assert_eq!(moved, "/w/lib/a/b.rs");
    assert_eq!(strip_prefix_exec(&moved, "/w/lib"), Some(rel));
}

#[test]
fn byte_and_char_indices_invert_each_other() {
    let t = "héllo wörld";
    for c in 0..=t.chars().count() {
        assert_eq!(char_index(t, byte_index(t, c)), c);
    }
    for (b, _) in t.char_indices() {
        assert_eq!(byte_index(t, char_index(t, b)), b);
    }
    assert_eq!(char_index(t, byte_index(t, 99)), t.chars().count());
}

#[test]
fn folder_icons_ignore_case() {
    assert_eq!(icon_for_dir(".GITHUB", false), icon_for_dir(".github", false));
    assert_eq!(icon_for_dir("Src", true), icon_for_dir("src", true));
}

#[test]
fn icon_stems_are_never_empty_and_always_bundled() {
    for name in ["", ".", "x", "main.rs", "Cargo.toml", "a.UNKNOWN", ".gitignore"] {
        let stem = icon_for_file(name);
        assert!(!stem.is_empty());
        assert!(icon_bytes(stem).is_some());
        let dir = icon_for_dir(name, true);
        assert!(!dir.is_empty());
        assert!(icon_bytes(dir).is_some());
    }
    assert!(icon_bytes("no_such_stem").is_none());
}

#[test]
fn the_last_file_asked_for_is_focused() {
    let probe = |p: &str, c: &str| FileProbe { path: p.to_owned(), canonical: Some(p.to_owned()), contents: Some(c.to_owned()) };
    let app = FrextApp::with_files(
        RestoredSession::empty(),
        Vec::new(),
        vec![probe("/w/a.txt", "a"), probe("/w/b.txt", "b")],
    );
    assert_eq!(app.tabs().len(), 3);
    assert_eq!(app.active(), 2);
    assert_eq!(app.tabs()[2].text, "b");
    assert_eq!(app.tabs()[2].disk_len, Some(1));
    assert!(!app.tabs()[2].is_dirty());
    assert_eq!(app.next_id(), 3);
}

#[test]
fn startup_without_files_keeps_the_restored_tabs() {
    let restored = RestoredSession {
        tabs: vec![Tab::from_file(4, "/w/x.txt".to_owned(), "x".to_owned()), Tab::new_untitled(6)],
        active: 0,
        next_id: 9,
        workspace: None,
        search: SearchQuery::empty(),
    };
    let app = FrextApp::with_args(restored, vec![None, None], Vec::new(), None);
    assert_eq!(app.tabs().iter().map(|t| t.id).collect::<Vec<_>>(), vec![4, 6]);
    assert_eq!(app.active(), 0);
    assert_eq!(app.next_id(), 9);
    let mut app = app;
    assert!(app.take_effects().is_empty());
    let fresh = FrextApp::with_args(RestoredSession::empty(), Vec::new(), Vec::new(), Some("/w/proj".to_owned()));
    assert_eq!(fresh.tabs().len(), 1);
    assert_eq!(fresh.tabs()[0].id, 0);
    assert_eq!(fresh.next_id(), 1);
    assert!(fresh.workspace().unwrap().expanded().is_empty());
}
