//! Support for ensuring that paths are absolute or relative.
//!
//! Anchors carry absolute paths when used in the API but are stored with
//! relative paths, so that repositories can be moved around.  Paths are
//! plain strings here; a path is taken to be absolute exactly when it
//! starts with the path separator `/`.

use vstd::prelude::*;

verus! {

/// Whether a path string is absolute: non-empty and rooted at `/`.
pub open spec fn spec_path_is_absolute(path: Seq<char>) -> bool {
    path.len() > 0 && path[0] == '/'
}

/// Whether a path string is absolute.
pub fn path_is_absolute(path: &str) -> (r: bool)
    ensures
        r == spec_path_is_absolute(path@),
{
    if path.unicode_len() == 0 {
        false
    } else {
        path.get_char(0) == '/'
    }
}

/// Trait for checking if a path meets some criteria.
pub trait CheckPath {
    /// Whether `path` meets the criteria.
    spec fn spec_ok(path: Seq<char>) -> bool;

    /// Checks if `path` meets the expected criteria.
    ///
    /// Returns `None` if `path` meets the criteria, or an error message
    /// otherwise.
    fn check_path(path: &str) -> (r: Option<String>)
        ensures
            r is None <==> Self::spec_ok(path@),
    ;
}

/// CheckPath marker struct for relative paths.
pub struct RelativePath {}

/// CheckPath implementation that checks if paths are relative.
impl CheckPath for RelativePath {
    open spec fn spec_ok(path: Seq<char>) -> bool {
        !spec_path_is_absolute(path)
    }

    fn check_path(path: &str) -> (r: Option<String>) {
        if path_is_absolute(path) {
            Some(String::from_str("Path must be relative"))
        } else {
            None
        }
    }
}

/// CheckPath marker struct for absolute paths.
pub struct AbsolutePath {}

/// CheckPath implementation that checks if paths are absolute.
impl CheckPath for AbsolutePath {
    open spec fn spec_ok(path: Seq<char>) -> bool {
        spec_path_is_absolute(path)
    }

    fn check_path(path: &str) -> (r: Option<String>) {
        if !path_is_absolute(path) {
            Some(String::from_str("Path must be absolute"))
        } else {
            None
        }
    }
}

} // verus!
