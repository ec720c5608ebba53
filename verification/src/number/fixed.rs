//! Fixed-point numeric value.

use vstd::prelude::*;
use vstd::arithmetic::div_mod::{lemma_fundamental_div_mod_converse};
use core::ops::{Add, Div, Mul, Neg, Sub};
use vstd::std_specs::convert::FromSpecImpl;
use vstd::std_specs::ops::{AddSpecImpl, DivSpecImpl, MulSpecImpl, NegSpecImpl, SubSpecImpl};
use crate::error::Error;
use crate::number::format::{
    Format, shifted_integer, two_to, power_of_two, lemma_two_to_bounds,
};
use crate::number::rounding::{
    RoundingMode, round_quotient, rounded_quotient, trunc_div, fits_i64, magnitude,
    lemma_rounding_modes_are_as_documented, lemma_exact_quotient, floor_div,
};

verus! {

/// Signed fixed-point value backed by an `i64`.
///
/// The raw integer is interpreted using an external [`Format`]:
///
/// ```text
/// real value = raw / 2^frac_bits
/// ```
#[derive(Clone, Copy, Debug, PartialEq, Eq, Structural, PartialOrd, Ord, Hash)]
pub struct Fixed {
    raw: i64,
}

impl View for Fixed {
    type V = i64;

    /// The raw stored integer.
    closed spec fn view(&self) -> i64 {
        self.raw
    }
}

impl Fixed {
    /// The value whose raw stored integer is `raw`.
    pub closed spec fn spec_from_raw(raw: i64) -> Fixed {
        Fixed { raw }
    }
}

/// A value is determined by its raw integer.
pub broadcast proof fn lemma_fixed_view_of_raw(raw: i64)
    ensures
        #[trigger] Fixed::spec_from_raw(raw)@ == raw,
{
}

/// Rebuilding a value from its raw integer gives the value back.
pub broadcast proof fn lemma_fixed_raw_of_view(x: Fixed)
    ensures
        Fixed::spec_from_raw(#[trigger] x@) == x,
{
}

pub broadcast group group_fixed {
    lemma_fixed_view_of_raw,
    lemma_fixed_raw_of_view,
}

/// The value with raw integer `v`, or `Overflow` when `v` does not fit in an `i64`.
pub open spec fn fixed_or_overflow(v: int) -> Result<Fixed, Error> {
    if fits_i64(v) {
        Ok(Fixed::spec_from_raw(v as i64))
    } else {
        Err(Error::Overflow)
    }
}

/// The value with raw integer `v`, or `None` when `v` does not fit in an `i64`.
pub open spec fn fixed_if_fits(v: int) -> Option<Fixed> {
    if fits_i64(v) {
        Some(Fixed::spec_from_raw(v as i64))
    } else {
        None
    }
}

/// `v` clamped to the `i64` range.
pub open spec fn saturated(v: int) -> i64 {
    if v > i64::MAX {
        i64::MAX
    } else if v < i64::MIN {
        i64::MIN
    } else {
        v as i64
    }
}

/// The `i64` congruent to `v` modulo `2^64`: two's-complement wrap-around.
pub open spec fn wrapped(v: int) -> int {
    let m = v % 0x1_0000_0000_0000_0000;
    if m > i64::MAX {
        m - 0x1_0000_0000_0000_0000
    } else {
        m
    }
}

/// `value` encoded in `format`: raw integer `value · 2^frac_bits`, or
/// `Overflow` when that does not fit in an `i64`.
pub open spec fn encoded_integer(value: int, format: Format) -> Result<Fixed, Error> {
    fixed_or_overflow(value * two_to(format@ as int))
}

/// The integer part of `x` in `format`, rounded as `rounding` prescribes.
pub open spec fn decoded_integer(x: Fixed, format: Format, rounding: RoundingMode) -> Result<i64, Error> {
    let q = rounded_quotient(x@ as int, two_to(format@ as int), rounding);
    if fits_i64(q) {
        Ok(q as i64)
    } else {
        Err(Error::Overflow)
    }
}

/// The product of two values of one format: raw `round(a · b / 2^frac_bits)`.
pub open spec fn scaled_product(a: Fixed, b: Fixed, format: Format, rounding: RoundingMode) -> Result<Fixed, Error> {
    fixed_or_overflow(rounded_quotient(a@ * b@, two_to(format@ as int), rounding))
}

/// The quotient of two values of one format: raw `round(a · 2^frac_bits / b)`.
pub open spec fn scaled_quotient(a: Fixed, b: Fixed, format: Format, rounding: RoundingMode) -> Result<Fixed, Error> {
    if b@ == 0 {
        Err(Error::DivisionByZero)
    } else {
        fixed_or_overflow(rounded_quotient(a@ * two_to(format@ as int), b@ as int, rounding))
    }
}

/// `x` converted from `source` to `target`: multiplied by `2^(target - source)`
/// when the target keeps more fractional bits, otherwise divided by
/// `2^(source - target)` and rounded.
pub open spec fn rescaled(x: Fixed, source: Format, target: Format, rounding: RoundingMode) -> Result<Fixed, Error> {
    if target@ >= source@ {
        fixed_or_overflow(x@ * two_to(target@ - source@))
    } else {
        fixed_or_overflow(rounded_quotient(x@ as int, two_to(source@ - target@), rounding))
    }
}

/// The value `-x` (wrapping for `i64::MIN`).
pub open spec fn negated(x: Fixed) -> Fixed {
    Fixed::spec_from_raw((-x@) as i64)
}

/// The sum of two values when it fits.
pub open spec fn checked_sum(a: Fixed, b: Fixed) -> Option<Fixed> {
    fixed_if_fits(a@ + b@)
}

/// The difference of two values when it fits.
pub open spec fn checked_difference(a: Fixed, b: Fixed) -> Option<Fixed> {
    fixed_if_fits(a@ - b@)
}

/// Divides with rounding; `DivisionByZero` for a zero denominator.
fn divide_i128(numerator: i128, denominator: i128, rounding: RoundingMode) -> (r: Result<i128, Error>)
    requires
        numerator > i128::MIN,
        denominator > i128::MIN,
    ensures
        denominator == 0 <==> r is Err,
        r matches Err(e) ==> e == Error::DivisionByZero,
        r matches Ok(q) ==> q == rounded_quotient(numerator as int, denominator as int, rounding),
        r matches Ok(q) ==> magnitude(q as int) <= magnitude(numerator as int),
{
    if denominator == 0 {
        return Err(Error::DivisionByZero);
    }
    Ok(round_quotient(numerator, denominator, rounding))
}

/// Bounds on a product of two `i64` values.
proof fn lemma_i64_product_bounds(a: int, b: int)
    requires
        -0x8000_0000_0000_0000 <= a <= 0x8000_0000_0000_0000,
        -0x8000_0000_0000_0000 <= b <= 0x8000_0000_0000_0000,
    ensures
        -0x4000_0000_0000_0000_0000_0000_0000_0000 <= a * b <= 0x4000_0000_0000_0000_0000_0000_0000_0000,
{
    assert(-0x8000_0000_0000_0000 * 0x8000_0000_0000_0000 <= a * b <= 0x8000_0000_0000_0000
        * 0x8000_0000_0000_0000) by (nonlinear_arith)
        requires
            -0x8000_0000_0000_0000 <= a <= 0x8000_0000_0000_0000,
            -0x8000_0000_0000_0000 <= b <= 0x8000_0000_0000_0000,
    ;
}

/// Wrap-around of a value that is off the `i64` range by less than `2^64`.
proof fn lemma_wrapped_near(v: int)
    requires
        -0x1_0000_0000_0000_0000 <= v < 0x1_0000_0000_0000_0000,
    ensures
        wrapped(v) == if v > i64::MAX {
            v - 0x1_0000_0000_0000_0000
        } else if v < i64::MIN {
            v + 0x1_0000_0000_0000_0000
        } else {
            v
        },
{
    let m: int = 0x1_0000_0000_0000_0000;
    if v >= 0 {
        lemma_fundamental_div_mod_converse(v, m, 0, v);
    } else {
        lemma_fundamental_div_mod_converse(v, m, -1, v + m);
    }
}

impl Fixed {
    /// The value with raw integer zero.
    pub fn zero() -> (x: Self)
        ensures
            x == Fixed::spec_from_raw(0),
    {
        Self::from_raw(0)
    }

    /// The value with raw integer one: one unit in the last place, which is
    /// the number one only in the integer format.
    pub fn one() -> (x: Self)
        ensures
            x == Fixed::spec_from_raw(1),
    {
        Self::from_raw(1)
    }

    /// The smallest value, raw `i64::MIN`.
    pub fn min_value() -> (x: Self)
        ensures
            x == Fixed::spec_from_raw(i64::MIN),
    {
        Self::from_raw(i64::MIN)
    }

    /// The largest value, raw `i64::MAX`.
    pub fn max_value() -> (x: Self)
        ensures
            x == Fixed::spec_from_raw(i64::MAX),
    {
        Self::from_raw(i64::MAX)
    }

    pub fn new(raw: i64) -> (x: Self)
        ensures
            x == Fixed::spec_from_raw(raw),
    {
        Self::from_raw(raw)
    }

    pub fn from_raw(raw: i64) -> (x: Self)
        ensures
            x == Fixed::spec_from_raw(raw),
    {
        Self { raw }
    }

    pub fn raw(self) -> (raw: i64)
        ensures
            raw == self@,
    {
        self.raw
    }

    pub fn into_raw(self) -> (raw: i64)
        ensures
            raw == self@,
    {
        self.raw
    }

    pub fn is_zero(self) -> (b: bool)
        ensures
            b == (self@ == 0),
    {
        self.raw == 0
    }

    pub fn is_positive(self) -> (b: bool)
        ensures
            b == (self@ > 0),
    {
        self.raw > 0
    }

    pub fn is_negative(self) -> (b: bool)
        ensures
            b == (self@ < 0),
    {
        self.raw < 0
    }

    pub fn checked_add(self, rhs: Self) -> (r: Option<Self>)
        ensures
            r == checked_sum(self, rhs),
    {
        match self.raw.checked_add(rhs.raw) {
            Some(raw) => Some(Self::from_raw(raw)),
            None => None,
        }
    }

    pub fn checked_sub(self, rhs: Self) -> (r: Option<Self>)
        ensures
            r == checked_difference(self, rhs),
    {
        match self.raw.checked_sub(rhs.raw) {
            Some(raw) => Some(Self::from_raw(raw)),
            None => None,
        }
    }

    /// The product of the raw integers, when it fits.
    pub fn checked_mul(self, rhs: Self) -> (r: Option<Self>)
        ensures
            r == fixed_if_fits(self@ * rhs@),
    {
        match self.raw.checked_mul(rhs.raw) {
            Some(raw) => Some(Self::from_raw(raw)),
            None => None,
        }
    }

    /// The quotient of the raw integers, rounded toward zero, when the
    /// divisor is not zero and the quotient fits.
    pub fn checked_div(self, rhs: Self) -> (r: Option<Self>)
        ensures
            r == if rhs@ == 0 {
                None
            } else {
                fixed_if_fits(trunc_div(self@ as int, rhs@ as int))
            },
    {
        if rhs.raw == 0 {
            return None;
        }
        let quotient = round_quotient(self.raw as i128, rhs.raw as i128, RoundingMode::TowardZero);
        if quotient < i64::MIN as i128 || quotient > i64::MAX as i128 {
            None
        } else {
            Some(Self::from_raw(quotient as i64))
        }
    }

    pub fn checked_neg(self) -> (r: Option<Self>)
        ensures
            r == fixed_if_fits(-self@),
    {
        if self.raw == i64::MIN {
            None
        } else {
            Some(Self::from_raw(-self.raw))
        }
    }

    pub fn checked_abs(self) -> (r: Option<Self>)
        ensures
            r == fixed_if_fits(magnitude(self@ as int)),
    {
        if self.raw == i64::MIN {
            None
        } else if self.raw < 0 {
            Some(Self::from_raw(-self.raw))
        } else {
            Some(self)
        }
    }

    /// Encodes an integer using the supplied fixed-point format.
    pub fn encode_integer(value: i64, format: Format) -> (r: Result<Self, Error>)
        ensures
            r == encoded_integer(value as int, format),
    {
        let scale = power_of_two(format.frac_bits()) as i128;
        proof {
            lemma_two_to_bounds(format@ as int);
            lemma_i64_product_bounds(value as int, scale as int);
        }
        let raw = (value as i128) * scale;
        Self::from_i128(raw)
    }

    /// Decodes the integer portion of this value.
    pub fn decode_integer(self, format: Format, rounding: RoundingMode) -> (r: Result<i64, Error>)
        ensures
            r == decoded_integer(self, format, rounding),
    {
        proof {
            use_type_invariant(&format);
            lemma_two_to_bounds(format@ as int);
        }
        let scale = power_of_two(format.frac_bits()) as i128;
        let quotient = match divide_i128(self.raw as i128, scale, rounding) {
            Ok(quotient) => quotient,
            Err(error) => return Err(error),
        };
        if quotient < i64::MIN as i128 || quotient > i64::MAX as i128 {
            Err(Error::Overflow)
        } else {
            Ok(quotient as i64)
        }
    }

    /// Multiplies two values that use the same fixed-point format.
    ///
    /// For raw values `a` and `b` with scale `S = 2^frac_bits`:
    ///
    /// ```text
    /// result_raw = round((a * b) / S)
    /// ```
    pub fn checked_mul_scaled(self, rhs: Self, format: Format, rounding: RoundingMode) -> (r: Result<Self, Error>)
        ensures
            r == scaled_product(self, rhs, format, rounding),
    {
        proof {
            use_type_invariant(&format);
            lemma_two_to_bounds(format@ as int);
        }
        proof {
            lemma_i64_product_bounds(self@ as int, rhs@ as int);
        }
        let product = (self.raw as i128) * (rhs.raw as i128);
        let scale = power_of_two(format.frac_bits()) as i128;
        let raw = match divide_i128(product, scale, rounding) {
            Ok(raw) => raw,
            Err(error) => return Err(error),
        };
        Self::from_i128(raw)
    }

    /// Divides two values that use the same fixed-point format.
    ///
    /// For raw values `a` and `b` with scale `S = 2^frac_bits`:
    ///
    /// ```text
    /// result_raw = round((a * S) / b)
    /// ```
    pub fn checked_div_scaled(self, rhs: Self, format: Format, rounding: RoundingMode) -> (r: Result<Self, Error>)
        ensures
            r == scaled_quotient(self, rhs, format, rounding),
    {
        proof {
            use_type_invariant(&format);
            lemma_two_to_bounds(format@ as int);
        }
        if rhs.is_zero() {
            return Err(Error::DivisionByZero);
        }
        let scale = power_of_two(format.frac_bits()) as i128;
        proof {
            lemma_i64_product_bounds(self@ as int, scale as int);
        }
        let numerator = (self.raw as i128) * scale;
        let raw = match divide_i128(numerator, rhs.raw as i128, rounding) {
            Ok(raw) => raw,
            Err(error) => return Err(error),
        };
        Self::from_i128(raw)
    }

    /// Converts a value from one fractional format to another.
    pub fn rescale(self, source: Format, target: Format, rounding: RoundingMode) -> (r: Result<Self, Error>)
        ensures
            r == rescaled(self, source, target, rounding),
    {
        let source_bits = source.frac_bits();
        let target_bits = target.frac_bits();
        proof {
            lemma_two_to_bounds(0);
            lemma_fixed_raw_of_view(self);
        }
        if source == target {
            assert(two_to(target@ - source@) == 1);
            assert(self@ * two_to(target@ - source@) == self@);
            return Ok(self);
        }
        if target_bits > source_bits {
            let shift = target_bits - source_bits;
            let factor = power_of_two(shift) as i128;
            proof {
                lemma_two_to_bounds(shift as int);
                lemma_i64_product_bounds(self@ as int, factor as int);
            }
            let raw = (self.raw as i128) * factor;
            Self::from_i128(raw)
        } else {
            let shift = source_bits - target_bits;
            let divisor = power_of_two(shift) as i128;
            proof {
                lemma_two_to_bounds(shift as int);
            }
            proof {
                lemma_rounding_modes_are_as_documented(self@ as int, 1);
                if shift == 0 {
                    assert(two_to(target@ - source@) == 1);
                    assert(self@ * two_to(target@ - source@) == self@);
                }
            }
            let raw = match divide_i128(self.raw as i128, divisor, rounding) {
                Ok(raw) => raw,
                Err(error) => return Err(error),
            };
            Self::from_i128(raw)
        }
    }

    pub fn saturating_add(self, rhs: Self) -> (r: Self)
        ensures
            r@ == saturated(self@ + rhs@),
    {
        Self::from_raw(saturate(self.raw as i128 + rhs.raw as i128))
    }

    pub fn saturating_sub(self, rhs: Self) -> (r: Self)
        ensures
            r@ == saturated(self@ - rhs@),
    {
        Self::from_raw(saturate(self.raw as i128 - rhs.raw as i128))
    }

    pub fn saturating_mul(self, rhs: Self) -> (r: Self)
        ensures
            r@ == saturated(self@ * rhs@),
    {
        proof {
            lemma_i64_product_bounds(self@ as int, rhs@ as int);
        }
        Self::from_raw(saturate(self.raw as i128 * rhs.raw as i128))
    }

    pub fn saturating_neg(self) -> (r: Self)
        ensures
            r@ == saturated(-self@),
    {
        Self::from_raw(saturate(-(self.raw as i128)))
    }

    pub fn saturating_abs(self) -> (r: Self)
        ensures
            r@ == saturated(magnitude(self@ as int)),
    {
        if self.raw < 0 {
            self.saturating_neg()
        } else {
            self
        }
    }

    pub fn wrapping_add(self, rhs: Self) -> (r: Self)
        ensures
            r@ == wrapped(self@ + rhs@),
    {
        Self::from_raw(wrap_near(self.raw as i128 + rhs.raw as i128))
    }

    pub fn wrapping_sub(self, rhs: Self) -> (r: Self)
        ensures
            r@ == wrapped(self@ - rhs@),
    {
        Self::from_raw(wrap_near(self.raw as i128 - rhs.raw as i128))
    }

    pub fn wrapping_mul(self, rhs: Self) -> (r: Self)
        ensures
            r@ == wrapped(self@ * rhs@),
    {
        Self::from_raw(self.raw.wrapping_mul(rhs.raw))
    }

    pub fn wrapping_neg(self) -> (r: Self)
        ensures
            r@ == wrapped(-self@),
    {
        Self::from_raw(wrap_near(-(self.raw as i128)))
    }

    /// The magnitude, saturating at `i64::MAX`.
    pub fn abs(self) -> (r: Self)
        ensures
            r@ == saturated(magnitude(self@ as int)),
    {
        self.saturating_abs()
    }

    /// The sign as a raw integer: `1`, `-1` or `0`.
    pub fn signum(self) -> (r: Self)
        ensures
            r@ == if self@ > 0 {
                1
            } else if self@ < 0 {
                -1
            } else {
                0
            },
    {
        if self.raw > 0 {
            Self::from_raw(1)
        } else if self.raw < 0 {
            Self::from_raw(-1)
        } else {
            Self::from_raw(0)
        }
    }

    /// The smaller of two values; `self` when they are equal.
    pub fn min(self, other: Self) -> (r: Self)
        ensures
            r == if self@ <= other@ {
                self
            } else {
                other
            },
    {
        if self.raw <= other.raw {
            self
        } else {
            other
        }
    }

    /// The larger of two values; `self` when they are equal.
    pub fn max(self, other: Self) -> (r: Self)
        ensures
            r == if self@ >= other@ {
                self
            } else {
                other
            },
    {
        if self.raw >= other.raw {
            self
        } else {
            other
        }
    }

    fn from_i128(raw: i128) -> (r: Result<Self, Error>)
        ensures
            r == fixed_or_overflow(raw as int),
    {
        if raw < i64::MIN as i128 || raw > i64::MAX as i128 {
            Err(Error::Overflow)
        } else {
            Ok(Self::from_raw(raw as i64))
        }
    }
}

/// `v` clamped to the `i64` range.
fn saturate(v: i128) -> (r: i64)
    ensures
        r == saturated(v as int),
{
    if v > i64::MAX as i128 {
        i64::MAX
    } else if v < i64::MIN as i128 {
        i64::MIN
    } else {
        v as i64
    }
}

/// Two's-complement wrap-around of a value off the `i64` range by less than `2^64`.
fn wrap_near(v: i128) -> (r: i64)
    requires
        -0x1_0000_0000_0000_0000 <= v < 0x1_0000_0000_0000_0000,
    ensures
        r == wrapped(v as int),
{
    proof {
        lemma_wrapped_near(v as int);
    }
    if v > i64::MAX as i128 {
        (v - 0x1_0000_0000_0000_0000) as i64
    } else if v < i64::MIN as i128 {
        (v + 0x1_0000_0000_0000_0000) as i64
    } else {
        v as i64
    }
}

impl Default for Fixed {
    fn default() -> (x: Self)
        ensures
            x@ == 0,
    {
        Self { raw: 0 }
    }
}

/// Decoding an encoded integer gives the integer back, whatever the format
/// and the rounding.
pub proof fn lemma_encode_decode_round_trip(value: i64, format: Format, rounding: RoundingMode)
    requires
        format@ < 64,
    ensures
        encoded_integer(value as int, format) matches Ok(x) ==> decoded_integer(x, format, rounding) == Ok::<i64, Error>(value),
{
    lemma_two_to_bounds(format@ as int);
    lemma_exact_quotient(value as int, two_to(format@ as int), rounding);
}

/// Rescaling to a format with at least as many fractional bits and back
/// gives the value back, whatever the roundings.
pub proof fn lemma_rescale_round_trip(
    x: Fixed,
    source: Format,
    target: Format,
    there: RoundingMode,
    back: RoundingMode,
)
    requires
        source@ <= target@ < 64,
    ensures
        rescaled(x, source, target, there) matches Ok(y) ==> rescaled(y, target, source, back) == Ok::<Fixed, Error>(x),
{
    let shift = target@ - source@;
    lemma_two_to_bounds(shift);
    if shift == 0 {
        assert(x@ * two_to(shift) == x@);
    } else {
        lemma_exact_quotient(x@ as int, two_to(shift), back);
    }
}

/// Multiplying or dividing by the encoded one returns the value unchanged,
/// in every format and with every rounding.
pub proof fn lemma_scaled_one_is_identity(x: Fixed, format: Format, rounding: RoundingMode)
    requires
        format@ < 64,
    ensures
        encoded_integer(1, format) matches Ok(one) ==> (
            scaled_product(x, one, format, rounding) == Ok::<Fixed, Error>(x)
            && scaled_quotient(x, one, format, rounding) == Ok::<Fixed, Error>(x)
        ),
{
    lemma_two_to_bounds(format@ as int);
    lemma_exact_quotient(x@ as int, two_to(format@ as int), rounding);
}

/// `Format` and `Fixed` encode and decode integers alike: `Fixed::encode_integer`
/// fails exactly when `Format::encode_integer` finds no room, and
/// `Fixed::decode_integer` with floor rounding is the arithmetic shift of
/// `Format::decode_integer`.
pub proof fn lemma_format_and_fixed_agree(value: i64, x: Fixed, format: Format)
    requires
        format@ < 64,
    ensures
        encoded_integer(value as int, format) == match shifted_integer(value as int, format) {
            Some(raw) => Ok::<Fixed, Error>(Fixed::spec_from_raw(raw)),
            None => Err(Error::Overflow),
        },
        decoded_integer(x, format, RoundingMode::Floor) == Ok::<i64, Error>(
            floor_div(x@ as int, two_to(format@ as int)) as i64,
        ),
        fits_i64(floor_div(x@ as int, two_to(format@ as int))),
{
    lemma_two_to_bounds(format@ as int);
    let d = two_to(format@ as int);
    lemma_rounding_modes_are_as_documented(x@ as int, d);
    let q = floor_div(x@ as int, d);
    if q > 0 {
        assert(d * q >= q) by (nonlinear_arith)
            requires
                d >= 1,
                q > 0,
        ;
    }
    if q < 0 {
        assert(d * q <= q) by (nonlinear_arith)
            requires
                d >= 1,
                q < 0,
        ;
        assert(d * (q + 1) <= q + 1) by (nonlinear_arith)
            requires
                d >= 1,
                q + 1 <= 0,
        ;
        assert(d * (q + 1) == d * q + d) by (nonlinear_arith);
    }
}

impl From<i64> for Fixed {
    fn from(value: i64) -> (x: Self) {
        Self::from_raw(value)
    }
}

impl FromSpecImpl<i64> for Fixed {
    open spec fn obeys_from_spec() -> bool {
        true
    }

    open spec fn from_spec(v: i64) -> Fixed {
        Fixed::spec_from_raw(v)
    }
}

impl From<i32> for Fixed {
    fn from(value: i32) -> (x: Self) {
        Self::from_raw(value as i64)
    }
}

impl FromSpecImpl<i32> for Fixed {
    open spec fn obeys_from_spec() -> bool {
        true
    }

    open spec fn from_spec(v: i32) -> Fixed {
        Fixed::spec_from_raw(v as i64)
    }
}

impl From<i16> for Fixed {
    fn from(value: i16) -> (x: Self) {
        Self::from_raw(value as i64)
    }
}

impl FromSpecImpl<i16> for Fixed {
    open spec fn obeys_from_spec() -> bool {
        true
    }

    open spec fn from_spec(v: i16) -> Fixed {
        Fixed::spec_from_raw(v as i64)
    }
}

impl From<i8> for Fixed {
    fn from(value: i8) -> (x: Self) {
        Self::from_raw(value as i64)
    }
}

impl FromSpecImpl<i8> for Fixed {
    open spec fn obeys_from_spec() -> bool {
        true
    }

    open spec fn from_spec(v: i8) -> Fixed {
        Fixed::spec_from_raw(v as i64)
    }
}

impl From<Fixed> for i64 {
    fn from(value: Fixed) -> (raw: i64) {
        value.into_raw()
    }
}

impl FromSpecImpl<Fixed> for i64 {
    open spec fn obeys_from_spec() -> bool {
        true
    }

    open spec fn from_spec(v: Fixed) -> i64 {
        v@
    }
}

impl Add for Fixed {
    type Output = Self;

    fn add(self, rhs: Self) -> (r: Self) {
        Self::from_raw(self.raw + rhs.raw)
    }
}

impl AddSpecImpl for Fixed {
    open spec fn obeys_add_spec() -> bool {
        true
    }

    /// The raw sum must fit: an overflowing `+` panics.
    open spec fn add_req(self, rhs: Fixed) -> bool {
        fits_i64(self@ + rhs@)
    }

    open spec fn add_spec(self, rhs: Fixed) -> Fixed {
        Fixed::spec_from_raw((self@ + rhs@) as i64)
    }
}

impl Sub for Fixed {
    type Output = Self;

    fn sub(self, rhs: Self) -> (r: Self) {
        Self::from_raw(self.raw - rhs.raw)
    }
}

impl SubSpecImpl for Fixed {
    open spec fn obeys_sub_spec() -> bool {
        true
    }

    /// The raw difference must fit: an overflowing `-` panics.
    open spec fn sub_req(self, rhs: Fixed) -> bool {
        fits_i64(self@ - rhs@)
    }

    open spec fn sub_spec(self, rhs: Fixed) -> Fixed {
        Fixed::spec_from_raw((self@ - rhs@) as i64)
    }
}

impl Mul for Fixed {
    type Output = Self;

    fn mul(self, rhs: Self) -> (r: Self) {
        Self::from_raw(self.raw * rhs.raw)
    }
}

impl MulSpecImpl for Fixed {
    open spec fn obeys_mul_spec() -> bool {
        true
    }

    /// The raw product must fit: an overflowing `*` panics.
    open spec fn mul_req(self, rhs: Fixed) -> bool {
        fits_i64(self@ * rhs@)
    }

    open spec fn mul_spec(self, rhs: Fixed) -> Fixed {
        Fixed::spec_from_raw((self@ * rhs@) as i64)
    }
}

impl Div for Fixed {
    type Output = Self;

    fn div(self, rhs: Self) -> (r: Self) {
        let quotient = round_quotient(self.raw as i128, rhs.raw as i128, RoundingMode::TowardZero);
        Self::from_raw(quotient as i64)
    }
}

impl DivSpecImpl for Fixed {
    open spec fn obeys_div_spec() -> bool {
        true
    }

    /// `/` panics on a zero divisor and on `i64::MIN / -1`.
    open spec fn div_req(self, rhs: Fixed) -> bool {
        rhs@ != 0 && fits_i64(trunc_div(self@ as int, rhs@ as int))
    }

    open spec fn div_spec(self, rhs: Fixed) -> Fixed {
        Fixed::spec_from_raw(trunc_div(self@ as int, rhs@ as int) as i64)
    }
}

impl Neg for Fixed {
    type Output = Self;

    fn neg(self) -> (r: Self) {
        Self::from_raw(-self.raw)
    }
}

impl NegSpecImpl for Fixed {
    open spec fn obeys_neg_spec() -> bool {
        true
    }

    /// Negating `i64::MIN` panics.
    open spec fn neg_req(self) -> bool {
        self@ != i64::MIN
    }

    open spec fn neg_spec(self) -> Fixed {
        Fixed::spec_from_raw((-self@) as i64)
    }
}

} // verus!
