//! The calls into the standard library that vstd gives no specification.
use vstd::prelude::*;
use vstd::utf8::{valid_utf8, decode_utf8};

verus! {

/// A path that every platform takes apart in the same way: no backslash and
/// no colon (which Windows reads as separators or as part of a drive or
/// verbatim prefix), and no leading pair of slashes (a Windows network prefix).
pub open spec fn portable_path(p: Seq<char>) -> bool {
    &&& forall|i: int| 0 <= i < p.len() ==> p[i] != '\\' && p[i] != ':'
    &&& !(p.len() >= 2 && p[0] == '/' && p[1] == '/')
}

/// An extension that `Path::with_extension` takes: it holds no path separator
/// (`/` on every platform, `\\` on Windows), on which it panics.
pub open spec fn plain_extension(e: Seq<char>) -> bool {
    forall|i: int| 0 <= i < e.len() ==> e[i] != '/' && e[i] != '\\'
}

/// The path that `std::path::Path::with_extension` makes of the portable path
/// `path` and `extension` (the same on every platform for such a path).
pub uninterp spec fn path_with_extension(path: Seq<char>, extension: Seq<char>) -> Seq<char>;

/// `std::path::Path::new(path).with_extension(extension)`, as a string. (Every
/// path built here is valid UTF-8, so the lossless conversion back is exact.)
/// The result is named only for a portable path: for others the platform's
/// parsing decides it.
#[verifier::external_body]
pub(crate) fn with_extension(path: &str, extension: &str) -> (r: String)
    requires
        plain_extension(extension@),
    ensures
        portable_path(path@) ==> r@ == path_with_extension(path@, extension@),
{
    std::path::Path::new(path).with_extension(extension).to_string_lossy().into_owned()
}

/// `String::from_utf8`: the string that `bytes` encode in UTF-8, if they are
/// valid UTF-8.
#[verifier::external_body]
pub(crate) fn string_from_utf8(bytes: Vec<u8>) -> (r: Option<String>)
    ensures
        r is Some <==> valid_utf8(bytes@),
        r matches Some(s) ==> s@ == decode_utf8(bytes@),
{
    String::from_utf8(bytes).ok()
}

} // verus!
