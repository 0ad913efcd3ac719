//! Path and case operations of the standard library that the rules of the
//! library rely on. Each is a call into `std` whose result is named here.

use vstd::prelude::*;
use crate::chars::opt_chars;

verus! {

/// What `Path::file_name` gives for the path `p`, as text.
pub uninterp spec fn path_file_name(p: Seq<char>) -> Option<Seq<char>>;

/// What `Path::parent` gives for the path `p`, as text.
pub uninterp spec fn path_parent(p: Seq<char>) -> Option<Seq<char>>;

/// What `Path::join` gives for the paths `base` and `rest`, as text.
pub uninterp spec fn path_join(base: Seq<char>, rest: Seq<char>) -> Seq<char>;

/// What `Path::extension` gives for the path `p`, as text.
pub uninterp spec fn path_extension(p: Seq<char>) -> Option<Seq<char>>;

/// What `==` on `Path` gives for the paths `a` and `b`.
pub uninterp spec fn same_path(a: Seq<char>, b: Seq<char>) -> bool;

/// What `str::to_lowercase` gives for `s`.
pub uninterp spec fn lowercase(s: Seq<char>) -> Seq<char>;

/// What `char::to_uppercase`, collected into a string, gives for `c`.
pub uninterp spec fn char_uppercase(c: char) -> Seq<char>;

/// `Path::file_name` of `p`: the last component unless it is `..`. The
/// result is named by `path_file_name`.
#[verifier::external_body]
pub(crate) fn file_name_of(p: &str) -> (r: Option<String>)
    ensures
        opt_chars(r) == path_file_name(p@),
{
    std::path::Path::new(p).file_name().map(|f| f.to_string_lossy().into_owned())
}

/// `Path::parent` of `p`: the path without its last component. The result
/// is named by `path_parent`.
#[verifier::external_body]
pub(crate) fn parent_of(p: &str) -> (r: Option<String>)
    ensures
        opt_chars(r) == path_parent(p@),
{
    std::path::Path::new(p).parent().map(|q| q.to_string_lossy().into_owned())
}

/// `Path::join`: `rest` appended to `base` as a path. The result is named
/// by `path_join`.
#[verifier::external_body]
pub(crate) fn join_path(base: &str, rest: &str) -> (r: String)
    ensures
        r@ == path_join(base@, rest@),
{
    std::path::Path::new(base).join(rest).to_string_lossy().into_owned()
}

/// `Path::extension` of `p`: what follows the last dot of the file name.
/// The result is named by `path_extension`.
#[verifier::external_body]
pub(crate) fn extension_of(p: &str) -> (r: Option<String>)
    ensures
        opt_chars(r) == path_extension(p@),
{
    std::path::Path::new(p).extension().map(|e| e.to_string_lossy().into_owned())
}

/// `==` on `Path`: the two paths have the same components. The result is
/// named by `same_path`; the one fact stated of it is that a path equals
/// itself, as equal texts give equal components.
#[verifier::external_body]
pub(crate) fn paths_equal(a: &str, b: &str) -> (r: bool)
    ensures
        r == same_path(a@, b@),
        a@ == b@ ==> r,
{
    std::path::Path::new(a) == std::path::Path::new(b)
}

/// `str::to_lowercase`: the Unicode lower-case mapping of `s`. The result
/// is named by `lowercase`.
#[verifier::external_body]
pub(crate) fn to_lowercase(s: &str) -> (r: String)
    ensures
        r@ == lowercase(s@),
{
    s.to_lowercase()
}

/// `char::to_uppercase` of `c`, collected into a string: its Unicode
/// upper-case mapping, one or more characters. The result is named by
/// `char_uppercase`.
#[verifier::external_body]
pub(crate) fn char_to_uppercase(c: char) -> (r: String)
    ensures
        r@ == char_uppercase(c),
{
    c.to_uppercase().collect::<String>()
}

} // verus!
