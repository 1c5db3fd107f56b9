//! Types of the standard library and of outside crates that the library carries through without
//! looking inside.

use vstd::prelude::*;

verus! {

/// An owned file system path, carried as it came.
#[verifier::external_type_specification]
#[verifier::external_body]
pub struct ExPathBuf(std::path::PathBuf);

/// A borrowed file system path.
#[verifier::external_type_specification]
#[verifier::external_body]
pub struct ExPath(std::path::Path);

/// A failure of the operating system, carried as it came.
#[verifier::external_type_specification]
#[verifier::external_body]
pub struct ExIoError(std::io::Error);

/// A failure of `serde_json`, carried as it came.
#[verifier::external_type_specification]
#[verifier::external_body]
pub struct ExJsonError(serde_json::Error);

/// The borrowed form of an owned path.
///
/// Calls `PathBuf::as_path`, which hands out the same path without copying it; nothing is
/// stated of it because the library only passes it on.
#[verifier::external_body]
pub(crate) fn as_path(path: &std::path::PathBuf) -> &std::path::Path {
    path.as_path()
}

/// What the operating system said, in its own words.
///
/// Calls `io::Error`'s `to_string`. The wording is the platform's, so nothing is stated of it.
#[verifier::external_body]
pub(crate) fn io_error_text(error: &std::io::Error) -> String {
    error.to_string()
}

/// What `serde_json` said, in its own words.
///
/// Calls `serde_json::Error`'s `to_string`, whose wording belongs to that crate; nothing is
/// stated of it.
#[verifier::external_body]
pub(crate) fn json_error_text(error: &serde_json::Error) -> String {
    error.to_string()
}

/// A path as text, the way `Path::display` writes it.
///
/// Calls `Path::display` and `to_string`. A path that is not valid UTF-8 is shown with
/// replacement characters, which depends on the platform's bytes, so nothing is stated of it.
#[verifier::external_body]
pub(crate) fn path_text(path: &std::path::Path) -> String {
    path.display().to_string()
}

} // verus!
