//! The small buffer in which a number's digits are gathered.
//!
//! `SmallVec` keeps a few items inline and goes to the heap only beyond
//! that; the digits of a `usize` fit inline. Verus cannot look inside a
//! `SmallVec`, so what the buffer holds is named by [`small_digits`] and
//! every call into the `smallvec` crate goes through one of the functions
//! below, whose contracts are believed, not proved.

use smallvec::SmallVec;
use vstd::prelude::*;

verus! {

/// A buffer of digits, held in a `SmallVec` with room for twenty inline.
#[verifier::external_body]
pub struct Digits {
    buffer: SmallVec<[u8; 20]>,
}

/// The items that a buffer of digits holds, first pushed first.
pub uninterp spec fn small_digits(digits: Digits) -> Seq<u8>;

/// `SmallVec::new`: a buffer that holds nothing.
#[verifier::external_body]
pub(crate) fn digits_new() -> (digits: Digits)
    ensures
        small_digits(digits) == Seq::<u8>::empty(),
{
    Digits { buffer: SmallVec::new() }
}

/// `SmallVec::push`: the buffer holds what it held, then `digit`.
#[verifier::external_body]
pub(crate) fn digits_push(digits: &mut Digits, digit: u8)
    ensures
        small_digits(*final(digits)) == small_digits(*old(digits)).push(digit),
{
    digits.buffer.push(digit)
}

/// `SmallVec::pop`: takes the item pushed last out of the buffer and gives
/// it, or gives nothing and leaves the buffer empty as it was.
#[verifier::external_body]
pub(crate) fn digits_pop(digits: &mut Digits) -> (digit: Option<u8>)
    ensures
        match digit {
            Some(last) => small_digits(*old(digits)).len() > 0 && last == small_digits(
                *old(digits),
            ).last() && small_digits(*final(digits)) == small_digits(*old(digits)).drop_last(),
            None => small_digits(*old(digits)).len() == 0 && small_digits(*final(digits))
                == small_digits(*old(digits)),
        },
{
    digits.buffer.pop()
}

} // verus!
