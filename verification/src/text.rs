//! What the library takes from the standard library without proof: the
//! lower-case form of a text and the final component of a path. Each is known
//! here by name only; the functions that call them say what they do with the
//! result.

use vstd::prelude::*;

verus! {

/// The lower-case form of a text, as the standard library's Unicode case
/// mapping gives it.
pub uninterp spec fn lowercase(text: Seq<char>) -> Seq<char>;

/// Calls `str::to_lowercase`. Nothing is proved of it: the result is, by
/// name, the lower-case form of the argument, a function of the text alone.
#[verifier::external_body]
pub(crate) fn to_lowercase(text: &str) -> (lower: String)
    ensures
        lower@ == lowercase(text@),
{
    text.to_lowercase()
}

/// The final component of a path, as the standard library's `Path` reads
/// paths on the platform that the crate is built for; none where the path has
/// no such component.
pub uninterp spec fn file_name(path: Seq<char>) -> Option<Seq<char>>;

/// The text of an optional string.
pub open spec fn text_of(s: Option<String>) -> Option<Seq<char>> {
    match s {
        Some(s) => Some(s@),
        None => None,
    }
}

/// Calls `Path::file_name`. Nothing is proved of it: the result is, by
/// name, the final component of the path, a function of the path alone.
#[verifier::external_body]
pub(crate) fn file_name_of(path: &str) -> (name: Option<String>)
    ensures
        text_of(name) == file_name(path@),
{
    match std::path::Path::new(path).file_name() {
        Some(name) => Some(name.to_string_lossy().into_owned()),
        None => None,
    }
}

} // verus!
