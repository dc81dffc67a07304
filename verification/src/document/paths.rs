//! File paths, which the library carries and hands out, and does not read.

use std::path::{Path, PathBuf};
use vstd::prelude::*;

verus! {

/// `std::path::PathBuf`, an owned path.
#[verifier::external_type_specification]
#[verifier::external_body]
pub struct ExPathBuf(std::path::PathBuf);

/// `std::path::Path`, a borrowed path.
#[verifier::external_type_specification]
#[verifier::external_body]
pub struct ExPath(std::path::Path);

/// The bytes that an owned path holds.
pub uninterp spec fn path_buf_bytes(p: std::path::PathBuf) -> Seq<u8>;

/// The bytes that a borrowed path holds.
pub uninterp spec fn path_bytes(p: &std::path::Path) -> Seq<u8>;

/// The bytes of a directory, where there is one.
pub open spec fn dir_bytes(dir: Option<&std::path::Path>) -> Option<Seq<u8>> {
    match dir {
        Some(d) => Some(path_bytes(d)),
        None => None,
    }
}

/// `Path::to_path_buf` copies the path.
#[verifier::external_body]
pub(crate) fn own_path(p: &Path) -> (r: PathBuf)
    ensures
        path_buf_bytes(r) == path_bytes(p),
{
    p.to_path_buf()
}

/// `PathBuf::as_path` is the same path.
#[verifier::external_body]
pub(crate) fn borrow_path(p: &PathBuf) -> (r: &Path)
    ensures
        path_bytes(r) == path_buf_bytes(*p),
{
    p.as_path()
}

} // verus!
