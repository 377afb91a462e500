//! Path questions the runner asks, answered by `std::path`.
use vstd::prelude::*;

verus! {

/// The last component of `path` as `std::path::Path::file_name` gives it, taken as text.
/// Separators are those of the platform the library is built for (`/` on Unix, `/` and `\`
/// on Windows), so the name is fixed per build.
pub uninterp spec fn path_file_name(path: Seq<char>) -> Option<Seq<char>>;

/// `std::path::Path::file_name` of `path`, turned back into text. Nothing is claimed of the
/// result beyond the name [`path_file_name`], which depends on `path` alone.
#[verifier::external_body]
pub(crate) fn file_name_of(path: &str) -> (r: Option<String>)
    ensures
        match r {
            Some(s) => path_file_name(path@) == Some(s@),
            None => path_file_name(path@) is None,
        },
{
    std::path::Path::new(path).file_name().and_then(|n| n.to_str()).map(|n| n.to_string())
}

/// The parent of `path` as `std::path::Path::parent` gives it, taken as text. Like
/// [`path_file_name`], it follows the separators of the platform the library is built for.
pub uninterp spec fn path_parent(path: Seq<char>) -> Option<Seq<char>>;

/// `std::path::Path::parent` of `path`, turned back into text. Nothing is claimed of the
/// result beyond the name [`path_parent`], which depends on `path` alone.
#[verifier::external_body]
pub(crate) fn parent_of(path: &str) -> (r: Option<String>)
    ensures
        match r {
            Some(s) => path_parent(path@) == Some(s@),
            None => path_parent(path@) is None,
        },
{
    std::path::Path::new(path).parent().and_then(|p| p.to_str()).map(|p| p.to_string())
}

} // verus!
