use frext::highlight::{language_from_path, MatchHighlights};

#[test]
fn no_path_yields_plain_text() {
    assert_eq!(language_from_path(None), "");
}

#[test]
fn extensionless_path_yields_plain_text() {
    assert_eq!(language_from_path(Some("/etc/hostname")), "");
}

#[test]
fn known_extension_maps_to_itself() {
    assert_eq!(language_from_path(Some("main.rs")), "rs");
    assert_eq!(language_from_path(Some("a.toml")), "toml");
    assert_eq!(language_from_path(Some("a.nix")), "nix");
}

#[test]
fn aliased_extensions_remap_to_canonical_token() {
    assert_eq!(language_from_path(Some("a.yml")), "yaml");
    assert_eq!(language_from_path(Some("a.markdown")), "md");
    assert_eq!(language_from_path(Some("a.htm")), "html");
    assert_eq!(language_from_path(Some("a.hpp")), "cpp");
    assert_eq!(language_from_path(Some("run.bash")), "sh");
}

#[test]
fn extension_matching_is_case_insensitive() {
    assert_eq!(language_from_path(Some("MAIN.RS")), "rs");
    assert_eq!(language_from_path(Some("Config.YML")), "yaml");
}

#[test]
fn unknown_extension_is_passed_through_verbatim() {
    assert_eq!(language_from_path(Some("a.zig")), "zig");
}

#[test]
fn dotfiles_and_dotted_directories_have_no_extension() {
    assert_eq!(language_from_path(Some(".bashrc")), "");
    assert_eq!(language_from_path(Some("/home/u/.config/app")), "");
    assert_eq!(language_from_path(Some("/srv/site.d/index.HTM")), "html");
}

#[test]
fn empty_highlights_carry_nothing() {
    let h = MatchHighlights::none();
    assert!(h.ranges.is_empty());
    assert_eq!(h.current, None);
}
