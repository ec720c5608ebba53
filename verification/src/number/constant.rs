//! Common numeric constants.

use vstd::prelude::*;
use crate::error::Error;
use crate::number::fixed::{Fixed, encoded_integer, rescaled};
use crate::number::format::Format;
use crate::number::rounding::RoundingMode;

verus! {

/// Raw integer of `ln(2)` encoded as Q32.
///
/// ```text
/// round(ln(2) * 2^32) = 2_977_044_471
/// ```
pub const LN_2_Q32: i64 = 2_977_044_471;

/// `ln(2)` in `format`: the Q32 constant rescaled with `rounding`.
pub open spec fn ln_2_in(format: Format, rounding: RoundingMode) -> Result<Fixed, Error> {
    rescaled(Fixed::spec_from_raw(LN_2_Q32), Format::spec_new(32), format, rounding)
}

/// Creates an integer encoded using `format`.
pub fn integer(value: i64, format: Format) -> (r: Result<Fixed, Error>)
    ensures
        r == encoded_integer(value as int, format),
{
    Fixed::encode_integer(value, format)
}

/// Returns encoded zero.
pub fn zero() -> (r: Fixed)
    ensures
        r == Fixed::spec_from_raw(0),
{
    Fixed::from_raw(0)
}

/// Raw integer negative one.
pub fn raw_negative_one() -> (r: Fixed)
    ensures
        r == Fixed::spec_from_raw(-1i64),
{
    Fixed::from_raw(-1)
}

/// Raw integer one: the number one only in the integer format; for a
/// scaled format use [`one`].
pub fn raw_one() -> (r: Fixed)
    ensures
        r == Fixed::spec_from_raw(1),
{
    Fixed::from_raw(1)
}

/// Raw integer two.
pub fn raw_two() -> (r: Fixed)
    ensures
        r == Fixed::spec_from_raw(2),
{
    Fixed::from_raw(2)
}

/// Raw integer three.
pub fn raw_three() -> (r: Fixed)
    ensures
        r == Fixed::spec_from_raw(3),
{
    Fixed::from_raw(3)
}

/// Raw integer four.
pub fn raw_four() -> (r: Fixed)
    ensures
        r == Fixed::spec_from_raw(4),
{
    Fixed::from_raw(4)
}

/// Raw integer five.
pub fn raw_five() -> (r: Fixed)
    ensures
        r == Fixed::spec_from_raw(5),
{
    Fixed::from_raw(5)
}

/// Raw integer ten.
pub fn raw_ten() -> (r: Fixed)
    ensures
        r == Fixed::spec_from_raw(10),
{
    Fixed::from_raw(10)
}

/// Returns encoded one.
pub fn one(format: Format) -> (r: Result<Fixed, Error>)
    ensures
        r == encoded_integer(1, format),
{
    integer(1, format)
}

/// Returns encoded two.
pub fn two(format: Format) -> (r: Result<Fixed, Error>)
    ensures
        r == encoded_integer(2, format),
{
    integer(2, format)
}

/// Returns `ln(2)` encoded in the requested format.
pub fn ln_2(format: Format, rounding: RoundingMode) -> (r: Result<Fixed, Error>)
    ensures
        r == ln_2_in(format, rounding),
{
    Fixed::from_raw(LN_2_Q32).rescale(Format::new(32), format, rounding)
}

} // verus!
