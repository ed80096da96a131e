//! Existence and kind queries.
//!
//! These never fail: a missing entry is a valid `false`, not an error. They
//! ask the operating system about ambient filesystem state, so nothing can
//! be promised of their results beyond their meaning; the trusted calls
//! below carry no contract for that reason.

use vstd::prelude::*;

verus! {

/// Relies on std::path::Path::exists: true iff the path refers to an
/// existing filesystem entry of any kind.
#[verifier::external_body]
fn path_exists(path: &str) -> bool {
    std::path::Path::new(path).exists()
}

/// Relies on std::path::Path::is_file: true iff the path refers to an
/// existing regular file.
#[verifier::external_body]
fn path_is_file(path: &str) -> bool {
    std::path::Path::new(path).is_file()
}

/// Relies on std::path::Path::is_dir: true iff the path refers to an
/// existing directory.
#[verifier::external_body]
fn path_is_dir(path: &str) -> bool {
    std::path::Path::new(path).is_dir()
}

/// True iff `path` refers to an existing entry that is a regular file.
/// A nonexistent path answers `false`, never an error.
pub fn file_exists(path: &str) -> bool {
    path_exists(path) && path_is_file(path)
}

/// True iff `path` refers to an existing entry that is a directory.
/// A nonexistent path answers `false`, never an error.
pub fn dir_exists(path: &str) -> bool {
    path_exists(path) && path_is_dir(path)
}

/// True iff `path` refers to any existing filesystem entry, file or
/// directory. A nonexistent path answers `false`, never an error.
pub fn entry_exists(path: &str) -> bool {
    path_exists(path)
}

} // verus!
