//! Which entries count as hidden.

use crate::text::{file_name, file_name_of};
use vstd::prelude::*;

verus! {

/// The bit of a file's attributes that marks it as hidden, on systems that
/// keep such attributes.
pub const HIDDEN_ATTRIBUTE: u32 = 0x2;

/// A name is hidden when it begins with a `.`.
pub open spec fn dot_name(name: Seq<char>) -> bool {
    name.len() > 0 && name[0] == '.'
}

/// A path is hidden, by its name, when its final component begins with a
/// `.`; a path without a final component is not hidden.
pub open spec fn hidden_by_name(path: Seq<char>) -> bool {
    match file_name(path) {
        Some(name) => dot_name(name),
        None => false,
    }
}

/// Whether `name` begins with a `.`.
pub fn is_dot_name(name: &str) -> (hidden: bool)
    ensures
        hidden == dot_name(name@),
{
    let mut chars = name.chars();
    match chars.next() {
        Some(c) => c == '.',
        None => false,
    }
}

/// Whether the entry at `path` is hidden, going by its name.
pub fn is_file_hidden(path: &str) -> (hidden: bool)
    ensures
        hidden == hidden_by_name(path@),
{
    match file_name_of(path) {
        Some(name) => is_dot_name(name.as_str()),
        None => false,
    }
}

/// Whether file attributes mark an entry as hidden.
pub fn is_attribute_hidden(attributes: u32) -> (hidden: bool)
    ensures
        hidden == (attributes & HIDDEN_ATTRIBUTE == HIDDEN_ATTRIBUTE),
{
    (attributes & HIDDEN_ATTRIBUTE) == HIDDEN_ATTRIBUTE
}

} // verus!
