use vstd::prelude::*;
use path_clean::PathClean;
use std::path::Path;

verus! {

/// What `Path::join` makes of a base and a relative path.
pub uninterp spec fn joined_path(base: Seq<char>, relative: Seq<char>) -> Seq<char>;

/// What `path_clean` makes of a path: it is lexical, so it depends on the text alone.
pub uninterp spec fn cleaned_path(p: Seq<char>) -> Seq<char>;

/// Relies on `std::path::Path::join`: `relative` appended to `base`, or
/// `relative` alone when it is absolute.
#[verifier::external_body]
fn join_path(base: &str, relative: &str) -> (r: String)
    ensures
        r@ == joined_path(base@, relative@),
{
    Path::new(base).join(relative).to_string_lossy().into_owned()
}

/// Relies on `path_clean::PathClean::clean`: the lexically cleaned path, `.`
/// when nothing is left.
#[verifier::external_body]
fn clean_path(p: &str) -> (r: String)
    ensures
        r@ == cleaned_path(p@),
        r@.len() > 0,
{
    Path::new(p).clean().to_string_lossy().into_owned()
}

/// `relative` resolved against `base`, then cleaned of `.`, `..` and repeated
/// separators.
pub fn normalize_path(base: &str, relative: &str) -> (r: String)
    ensures
        r@ == cleaned_path(joined_path(base@, relative@)),
        r@.len() > 0,
{
    let joined = join_path(base, relative);
    clean_path(joined.as_str())
}

} // verus!
