use frext::file_icon::{icon_bytes, icon_for_dir, icon_for_file, lookup_suffix, stem_uri, suffix_candidates};
use frext::file_icon_bytes::ICON_SVGS;
use frext::file_icon_table;

#[test]
fn every_referenced_icon_is_embedded() {
    for stem in [
        file_icon_table::DEFAULT_FILE,
        file_icon_table::DEFAULT_DIR_COLLAPSED,
        file_icon_table::DEFAULT_DIR_EXPANDED,
    ] {
        assert!(icon_bytes(stem).is_some(), "missing default icon: {stem}");
    }
    for &(_, stem) in file_icon_table::FILE_STEMS.iter() {
        assert!(icon_bytes(stem).is_some(), "missing stem icon: {stem}");
    }
    for &(_, stem) in file_icon_table::FILE_SUFFIXES.iter() {
        assert!(icon_bytes(stem).is_some(), "missing suffix icon: {stem}");
    }
    for &(_, collapsed, expanded) in file_icon_table::NAMED_DIRS.iter() {
        assert!(icon_bytes(collapsed).is_some(), "missing dir icon: {collapsed}");
        assert!(icon_bytes(expanded).is_some(), "missing dir icon: {expanded}");
    }
}

#[test]
fn embed_table_is_sorted_for_binary_search() {
    assert!(
        ICON_SVGS.windows(2).all(|w| w[0].0 < w[1].0),
        "ICON_SVGS must be sorted by stem"
    );
}

#[test]
fn lookup_tables_are_sorted_for_binary_search() {
    assert!(
        file_icon_table::FILE_STEMS.windows(2).all(|w| w[0].0 < w[1].0),
        "FILE_STEMS must be sorted by key"
    );
    assert!(
        file_icon_table::FILE_SUFFIXES.windows(2).all(|w| w[0].0 < w[1].0),
        "FILE_SUFFIXES must be sorted by key"
    );
}

#[test]
fn unknown_file_falls_back_to_the_generic_icon() {
    assert_eq!(icon_for_file("mystery.unheardofextension"), file_icon_table::DEFAULT_FILE);
    assert_eq!(icon_for_file("no_extension_at_all"), file_icon_table::DEFAULT_FILE);
}

#[test]
fn rust_source_gets_the_rust_icon() {
    assert_eq!(icon_for_file("main.rs"), "rust");
}

#[test]
fn full_name_rules_beat_suffix_rules() {
    let by_name = icon_for_file("Cargo.toml");
    let by_suffix = lookup_suffix("toml").unwrap();
    assert_ne!(by_name, by_suffix, "Cargo.toml should not resolve to the generic toml icon");
}

#[test]
fn longer_suffixes_win_over_shorter_ones() {
    let candidates = suffix_candidates("app.component.ts");
    assert_eq!(candidates, vec!["component.ts", "ts"]);
}

#[test]
fn suffix_candidates_handles_dotfiles_and_plain_names() {
    assert_eq!(suffix_candidates(".gitignore"), vec!["gitignore"]);
    assert!(suffix_candidates("plain").is_empty());
}

#[test]
fn directories_use_open_and_closed_variants() {
    let closed = icon_for_dir("some_unknown_folder", false);
    let open = icon_for_dir("some_unknown_folder", true);
    assert_eq!(closed, file_icon_table::DEFAULT_DIR_COLLAPSED);
    assert_eq!(open, file_icon_table::DEFAULT_DIR_EXPANDED);
    assert_ne!(closed, open);
}

#[test]
fn named_directories_are_matched_case_insensitively() {
    let lower = icon_for_dir(".github", false);
    let upper = icon_for_dir(".GITHUB", false);
    assert_eq!(lower, upper);
}

#[test]
fn stem_uri_is_stable_and_svg_suffixed() {
    assert_eq!(stem_uri("rust"), "frext-file-icon://rust.svg");
}

#[test]
fn suffixes_fall_back_to_their_lowercase_form() {
    assert_eq!(icon_for_file("PHOTO.PNG"), "image");
    assert_eq!(lookup_suffix("Dockerfile"), Some("docker"));
    assert_eq!(lookup_suffix("dockerfile"), None);
    assert_eq!(icon_for_file("archive.tar.toml"), "toml");
}

#[test]
fn named_directories_pick_their_own_icons() {
    assert_eq!(icon_for_dir("Src", false), "folder_src");
    assert_eq!(icon_for_dir("src", true), "folder_src_open");
}

#[test]
fn unknown_stems_have_no_bytes() {
    assert!(icon_bytes("no-such-icon").is_none());
    let svg = icon_bytes("rust").unwrap();
    assert!(svg.starts_with(b"<svg"));
}
