//! Typed error definitions for the editor core.

use vstd::prelude::*;

verus! {

/// Errors that can occur while compiling a search query into a matcher.
#[derive(Debug)]
pub enum SearchError {
    /// The user-supplied regular expression failed to compile; the message
    /// is the regex engine's description of the problem.
    InvalidRegex(String),
}

/// Errors that can occur while planning a file-tree filesystem operation
/// (rename, create, or move-to-trash) triggered from the sidebar.
#[derive(Debug)]
pub enum FsError {
    /// The proposed name was empty, `.` or `..`, or contained a path
    /// separator, so it could not be used as a single file or directory name.
    InvalidName(String),
    /// The destination of a create or rename already exists, so the
    /// operation was refused rather than clobbering it.
    AlreadyExists(String),
    /// A path that should have had a parent directory did not (e.g. a
    /// filesystem root), so a sibling could not be created or renamed.
    NoParent(String),
    /// An I/O error occurred while creating or renaming.
    Io {
        /// The path that was being operated on.
        path: String,
        /// A description of the underlying I/O failure.
        message: String,
    },
    /// Moving the entry to the OS trash failed.
    Trash {
        /// The path that could not be trashed.
        path: String,
        /// A human-readable description of the underlying failure.
        message: String,
    },
}

} // verus!
