//! The planning half of the sidebar's filesystem operations: rename, create
//! file, create directory. What a name may be and where an entry ends up
//! are decided here; touching the disk is left to the caller.

use vstd::prelude::*;
use crate::error::FsError;
use crate::path::{join, join_exec, parent, parent_exec, same_path, same_path_exec};

verus! {

broadcast use vstd::string::group_string_axioms;

/// Whether `name` can be used as a single file or directory name: it is not
/// empty, not `.` or `..`, and holds no path separator (so it cannot escape
/// its parent directory).
pub open spec fn valid_name(name: Seq<char>) -> bool {
    &&& name.len() > 0
    &&& name != seq!['.']
    &&& name != seq!['.', '.']
    &&& !name.contains('/')
    &&& !name.contains('\\')
}

/// Validate that `name` is usable as a single file or directory name.
pub fn validate_name(name: &str) -> (r: Result<(), FsError>)
    ensures
        match r {
            Ok(()) => valid_name(name@),
            Err(FsError::InvalidName(n)) => !valid_name(name@) && n@ == name@,
            Err(_) => false,
        },
{
    let chars = chars_of_name(name);
    let n = chars.len();
    let mut bad = n == 0 || (n == 1 && chars[0] == '.') || (n == 2 && chars[0] == '.' && chars[1] == '.');
    proof {
        if n == 1 && chars@[0] == '.' {
            assert(chars@ =~= seq!['.']);
        }
        if n == 2 && chars@[0] == '.' && chars@[1] == '.' {
            assert(chars@ =~= seq!['.', '.']);
        }
        if chars@ == seq!['.'] {
            assert(chars@.len() == 1 && chars@[0] == '.');
        }
        if chars@ == seq!['.', '.'] {
            assert(chars@.len() == 2 && chars@[0] == '.' && chars@[1] == '.');
        }
    }
    let mut i: usize = 0;
    while i < n
        invariant
            i <= n == chars@.len(),
            chars@ == name@,
            bad == ((n == 0 || chars@ == seq!['.'] || chars@ == seq!['.', '.']) || exists|k: int|
                0 <= k < i && (chars@[k] == '/' || chars@[k] == '\\')),
        decreases n - i,
    {
        if chars[i] == '/' || chars[i] == '\\' {
            bad = true;
        }
        i = i + 1;
    }
    proof {
        if name@.contains('/') {
            let k = choose|k: int| 0 <= k < name@.len() && name@[k] == '/';
            assert(chars@[k] == '/');
        }
        if name@.contains('\\') {
            let k = choose|k: int| 0 <= k < name@.len() && name@[k] == '\\';
            assert(chars@[k] == '\\');
        }
        if exists|k: int| 0 <= k < n && (chars@[k] == '/' || chars@[k] == '\\') {
            let k = choose|k: int| 0 <= k < n && (chars@[k] == '/' || chars@[k] == '\\');
            if chars@[k] == '/' {
                assert(name@.contains('/'));
            } else {
                assert(name@.contains('\\'));
            }
        }
    }
    if bad {
        Err(FsError::InvalidName(name.to_owned()))
    } else {
        Ok(())
    }
}

fn chars_of_name(name: &str) -> (v: Vec<char>)
    ensures
        v@ == name@,
{
    crate::text::chars_of(name)
}

/// The parent directory of `path`, or [`FsError::NoParent`] when it has
/// none (or only an empty one).
pub fn parent_of(path: &str) -> (r: Result<String, FsError>)
    ensures
        match r {
            Ok(p) => parent(path@) == Some(p@) && p@.len() > 0,
            Err(FsError::NoParent(q)) => q@ == path@ && match parent(path@) {
                Some(p) => p.len() == 0,
                None => true,
            },
            Err(_) => false,
        },
{
    match parent_exec(path) {
        Some(p) => {
            if p.as_str().is_empty() {
                Err(FsError::NoParent(path.to_owned()))
            } else {
                Ok(p)
            }
        },
        None => Err(FsError::NoParent(path.to_owned())),
    }
}

/// Where renaming `path` to `new_name` puts it: `new_name` in the same
/// parent directory, and whether that is where it already is (renaming to
/// the current name changes nothing). Fails on an invalid name or a path
/// without a parent.
pub fn rename_target(path: &str, new_name: &str) -> (r: Result<(String, bool), FsError>)
    ensures
        match r {
            Ok((dest, unchanged)) => valid_name(new_name@) && (parent(path@) matches Some(p) && p.len() > 0 && dest@ == join(p, new_name@))
                && unchanged == same_path(dest@, path@),
            Err(FsError::InvalidName(n)) => !valid_name(new_name@) && n@ == new_name@,
            Err(FsError::NoParent(q)) => valid_name(new_name@) && q@ == path@ && match parent(path@) {
                Some(p) => p.len() == 0,
                None => true,
            },
            Err(_) => false,
        },
{
    match validate_name(new_name) {
        Ok(()) => {},
        Err(e) => return Err(e),
    }
    let parent = match parent_of(path) {
        Ok(p) => p,
        Err(e) => return Err(e),
    };
    let dest = join_exec(parent.as_str(), new_name);
    let unchanged = same_path_exec(dest.as_str(), path);
    Ok((dest, unchanged))
}

/// Whether renaming `path` to `new_name` goes ahead, given whether an entry
/// already exists at the destination (as [`rename_target`] names it): the
/// destination and whether it is where the entry already is (then there is
/// nothing to do). An existing destination other than the entry itself is
/// never overwritten: [`FsError::AlreadyExists`].
pub fn plan_rename(path: &str, new_name: &str, dest_exists: bool) -> (r: Result<(String, bool), FsError>)
    ensures
        match r {
            Ok((dest, unchanged)) => valid_name(new_name@) && (parent(path@) matches Some(p) && p.len() > 0 && dest@ == join(p, new_name@))
                && unchanged == same_path(dest@, path@) && (unchanged || !dest_exists),
            Err(FsError::AlreadyExists(d)) => valid_name(new_name@) && (parent(path@) matches Some(p) && p.len() > 0 && d@ == join(p, new_name@))
                && !same_path(d@, path@) && dest_exists,
            Err(FsError::InvalidName(n)) => !valid_name(new_name@) && n@ == new_name@,
            Err(FsError::NoParent(q)) => valid_name(new_name@) && q@ == path@ && match parent(path@) {
                Some(p) => p.len() == 0,
                None => true,
            },
            Err(_) => false,
        },
{
    match rename_target(path, new_name) {
        Ok((dest, unchanged)) => {
            if !unchanged && dest_exists {
                Err(FsError::AlreadyExists(dest))
            } else {
                Ok((dest, unchanged))
            }
        },
        Err(e) => Err(e),
    }
}

/// Whether creating `name` inside `dir` goes ahead, given whether an entry
/// already exists at the destination (as [`create_target`] names it): the
/// new entry's path, or [`FsError::AlreadyExists`] rather than overwriting.
pub fn plan_create(dir: &str, name: &str, dest_exists: bool) -> (r: Result<String, FsError>)
    ensures
        match r {
            Ok(dest) => valid_name(name@) && dest@ == join(dir@, name@) && !dest_exists,
            Err(FsError::AlreadyExists(d)) => valid_name(name@) && d@ == join(dir@, name@) && dest_exists,
            Err(FsError::InvalidName(n)) => !valid_name(name@) && n@ == name@,
            Err(_) => false,
        },
{
    match create_target(dir, name) {
        Ok(dest) => {
            if dest_exists {
                Err(FsError::AlreadyExists(dest))
            } else {
                Ok(dest)
            }
        },
        Err(e) => Err(e),
    }
}

/// Where creating `name` inside `dir` puts it. Fails on an invalid name.
pub fn create_target(dir: &str, name: &str) -> (r: Result<String, FsError>)
    ensures
        match r {
            Ok(dest) => valid_name(name@) && dest@ == join(dir@, name@),
            Err(FsError::InvalidName(n)) => !valid_name(name@) && n@ == name@,
            Err(_) => false,
        },
{
    match validate_name(name) {
        Ok(()) => {},
        Err(e) => return Err(e),
    }
    Ok(join_exec(dir, name))
}

} // verus!
