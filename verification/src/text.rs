//! Strings and their characters.

use vstd::prelude::*;

verus! {

/// The characters of an optional string, where there is one.
pub open spec fn text_of(value: Option<String>) -> Option<Seq<char>> {
    match value {
        Some(s) => Some(s@),
        None => None,
    }
}

/// The characters of an optional string slice, where there is one.
pub open spec fn chars_of(value: Option<&str>) -> Option<Seq<char>> {
    match value {
        Some(s) => Some(s@),
        None => None,
    }
}

/// An owned copy of an optional string slice.
pub(crate) fn owned(value: Option<&str>) -> (r: Option<String>)
    ensures
        text_of(r) == chars_of(value),
{
    match value {
        Some(s) => Some(s.to_owned()),
        None => None,
    }
}

/// An owned copy of an optional string.
pub(crate) fn owned_copy(value: &Option<String>) -> (r: Option<String>)
    ensures
        text_of(r) == text_of(*value),
{
    match value {
        Some(s) => Some(s.clone()),
        None => None,
    }
}

/// Compares two string slices with `==` of `str`: true exactly when both hold
/// the same characters in the same order.
#[verifier::external_body]
pub(crate) fn same_text(a: &str, b: &str) -> (r: bool)
    ensures
        r == (a@ == b@),
{
    a == b
}

} // verus!
