//! The compact strings that hold messages and field names.
//!
//! `CompactString` keeps short texts inline instead of on the heap. Verus
//! cannot look inside one, so its contents are named by [`compact_text`] and
//! every call into the `compact_str` crate goes through one of the functions
//! below, whose contracts are believed, not proved.

use compact_str::CompactString;
use vstd::prelude::*;

verus! {

/// `compact_str::CompactString`, made known to Verus as a type whose inside
/// it does not see.
#[verifier::external_type_specification]
#[verifier::external_body]
pub struct ExCompactString(CompactString);

/// The characters that a compact string holds.
pub uninterp spec fn compact_text(s: CompactString) -> Seq<char>;

/// `CompactString::new`: a compact string that holds exactly the characters
/// of `text`.
#[verifier::external_body]
pub(crate) fn compact_new(text: &str) -> (s: CompactString)
    ensures
        compact_text(s) == text@,
{
    CompactString::new(text)
}

/// `CompactString::as_str`: the characters held, as a string slice.
#[verifier::external_body]
pub(crate) fn compact_as_str(s: &CompactString) -> (text: &str)
    ensures
        text@ == compact_text(*s),
{
    s.as_str()
}

/// `CompactString::clone`: a second compact string with the same characters.
#[verifier::external_body]
pub(crate) fn compact_clone(s: &CompactString) -> (copy: CompactString)
    ensures
        compact_text(copy) == compact_text(*s),
{
    s.clone()
}

/// `CompactString::eq`: two compact strings are equal exactly when they hold
/// the same characters.
#[verifier::external_body]
pub(crate) fn compact_same(a: &CompactString, b: &CompactString) -> (same: bool)
    ensures
        same == (compact_text(*a) == compact_text(*b)),
{
    a.eq(b)
}

} // verus!
