//! Filesystem paths, held as strings. What `std::path` computes from a path
//! is named here and obtained through it; what is on disk is read through
//! wrappers that promise nothing about the disk.

use vstd::prelude::*;

verus! {

/// What `Path::file_name` gives for a path: its last component, unless the
/// path ends in `..` or has no component.
pub uninterp spec fn path_file_name(p: Seq<char>) -> Option<Seq<char>>;

/// What `Path::join` gives: `base` extended by `tail` (or `tail` alone when
/// it is absolute).
pub uninterp spec fn path_join(base: Seq<char>, tail: Seq<char>) -> Seq<char>;

/// What `Path::parent` gives: the path without its final component, if it
/// has one.
pub uninterp spec fn path_parent(p: Seq<char>) -> Option<Seq<char>>;

/// `Path::file_name` of `p`, as a string.
#[verifier::external_body]
pub(crate) fn file_name_of(p: &str) -> (r: Option<String>)
    ensures
        match r {
            Some(n) => path_file_name(p@) == Some(n@),
            None => path_file_name(p@) is None,
        },
{
    std::path::Path::new(p).file_name().map(|n| n.to_string_lossy().into_owned())
}

/// `Path::join` of two paths, as a string.
#[verifier::external_body]
pub(crate) fn join(base: &str, tail: &str) -> (r: String)
    ensures
        r@ == path_join(base@, tail@),
{
    std::path::Path::new(base).join(tail).to_string_lossy().into_owned()
}

/// `Path::parent` of `p`, as a string. The parent is a prefix of `p` that
/// drops at least the final component, so it is shorter than `p`.
#[verifier::external_body]
pub(crate) fn parent_of(p: &str) -> (r: Option<String>)
    ensures
        match r {
            Some(q) => path_parent(p@) == Some(q@) && q@.len() < p@.len(),
            None => path_parent(p@) is None,
        },
{
    std::path::Path::new(p).parent().map(|q| q.to_string_lossy().into_owned())
}

/// `Path::is_dir`: whether a directory is on disk at `p`. It depends on the
/// disk, so nothing is claimed of the answer.
#[verifier::external_body]
pub(crate) fn is_dir_on_disk(p: &str) -> bool {
    std::path::Path::new(p).is_dir()
}

} // verus!
