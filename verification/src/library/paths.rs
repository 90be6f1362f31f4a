//! File paths as text: the parts of `std::path` the library relies on, each
//! named by what it gives for the path syntax of the platform the library is
//! built for.

use vstd::prelude::*;

use super::db::opt_view;

verus! {

/// What `Path::file_stem` gives for `path`: its final component without the
/// extension.
pub uninterp spec fn stem_of(path: Seq<char>) -> Option<Seq<char>>;

/// What `Path::file_name` gives for `path`: its final component.
pub uninterp spec fn name_of(path: Seq<char>) -> Option<Seq<char>>;

/// What `Path::with_file_name` gives for `path` and `name`: the path with its
/// final component replaced by `name`.
pub uninterp spec fn with_name(path: Seq<char>, name: Seq<char>) -> Seq<char>;

/// `Path::new(path).file_stem()`, as text.
#[verifier::external_body]
pub(crate) fn file_stem(path: &str) -> (r: Option<String>)
    ensures
        opt_view(r) == stem_of(path@),
{
    std::path::Path::new(path).file_stem().and_then(|s| s.to_str()).map(|s| s.to_owned())
}

/// `Path::new(path).file_name()`, as text.
#[verifier::external_body]
pub(crate) fn file_name(path: &str) -> (r: Option<String>)
    ensures
        opt_view(r) == name_of(path@),
{
    std::path::Path::new(path).file_name().and_then(|s| s.to_str()).map(|s| s.to_owned())
}

/// `Path::new(path).with_file_name(name)`, as text.
#[verifier::external_body]
pub(crate) fn with_file_name(path: &str, name: &str) -> (r: String)
    ensures
        r@ == with_name(path@, name@),
{
    std::path::Path::new(path).with_file_name(name).to_string_lossy().into_owned()
}

} // verus!
