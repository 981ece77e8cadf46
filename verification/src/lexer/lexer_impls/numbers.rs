use crate::grammar::{is_digit_byte, DIGIT_0, DIGIT_9};
use vstd::prelude::*;

verus! {

#[inline]
pub fn is_valid_digit(byte: u8) -> (digit: bool)
    ensures
        digit == is_digit_byte(byte),
{
    DIGIT_0 <= byte && byte <= DIGIT_9
}

} // verus!
