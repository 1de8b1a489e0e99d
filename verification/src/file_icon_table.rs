//! The file-icon lookup tables: file names, file-name suffixes and folder
//! names mapped to icon stems, each sorted by key.

use vstd::prelude::*;

verus! {

/// The icon for a file no rule matches.
pub const DEFAULT_FILE: &'static str = "_file";

/// The icon for a collapsed folder no rule matches.
pub const DEFAULT_DIR_COLLAPSED: &'static str = "_folder";

/// The icon for an expanded folder no rule matches.
pub const DEFAULT_DIR_EXPANDED: &'static str = "_folder_open";

/// Whole file names and their icons.
pub const FILE_STEMS: [(&'static str, &'static str); 7] = [
    ("Cargo.lock", "cargo"),
    ("Cargo.toml", "cargo"),
    ("Dockerfile", "docker"),
    ("LICENSE", "license"),
    ("Makefile", "makefile"),
    ("README.md", "readme"),
    ("flake.lock", "lock"),
];

/// Trailing dotted segments of file names and their icons.
pub const FILE_SUFFIXES: [(&'static str, &'static str); 25] = [
    ("Dockerfile", "docker"),
    ("bash", "shell"),
    ("c", "c"),
    ("cpp", "cpp"),
    ("css", "css"),
    ("gitignore", "git"),
    ("go", "go"),
    ("h", "c"),
    ("html", "html"),
    ("jpg", "image"),
    ("js", "javascript"),
    ("json", "json"),
    ("lock", "lock"),
    ("md", "markdown"),
    ("nix", "nix"),
    ("png", "image"),
    ("py", "python"),
    ("rs", "rust"),
    ("sh", "shell"),
    ("svg", "svg"),
    ("toml", "toml"),
    ("ts", "typescript"),
    ("txt", "text"),
    ("yaml", "yaml"),
    ("yml", "yaml"),
];

/// Lowercase folder names and their collapsed and expanded icons.
pub const NAMED_DIRS: [(&'static str, &'static str, &'static str); 6] = [
    (".git", "folder_git", "folder_git_open"),
    (".github", "folder_github", "folder_github_open"),
    ("assets", "folder_assets", "folder_assets_open"),
    ("docs", "folder_docs", "folder_docs_open"),
    ("src", "folder_src", "folder_src_open"),
    ("tests", "folder_tests", "folder_tests_open"),
];

} // verus!
