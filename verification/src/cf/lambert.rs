//! Lambert continued-fraction coefficients.

use vstd::prelude::*;
use crate::cf::coefficient::{Coefficient, CoefficientProvider, group_coefficient};
use crate::error::Error;
use crate::cf::atanh::lemma_nonnegative_quotient;
use crate::cf::evaluator::{backward_tail, backward_value};
use crate::number::fixed::{Fixed, group_fixed, encoded_integer, negated, scaled_product};
use crate::number::format::{Format, two_to};
use crate::number::rounding::{RoundingMode, lemma_symmetric_rounding_is_odd};
use vstd::arithmetic::power2::lemma_pow2_pos;

verus! {

broadcast use {group_fixed, group_coefficient};

/// The denominator `2·index + 1` of a level, encoded in `format`; `Overflow`
/// when the index or the odd integer does not fit in an `i64`.
pub open spec fn odd_denominator(index: int, format: Format) -> Result<Fixed, Error> {
    if index > i64::MAX || 2 * index + 1 > i64::MAX {
        Err(Error::Overflow)
    } else {
        encoded_integer(2 * index + 1, format)
    }
}

/// Computes the denominator `2·index + 1` of a level, encoded in `format`.
pub(crate) fn odd_level_denominator(index: usize, format: Format) -> (r: Result<Fixed, Error>)
    ensures
        r == odd_denominator(index as int, format),
{
    if index as u64 > i64::MAX as u64 {
        return Err(Error::Overflow);
    }
    let index = index as i64;
    let odd_integer = match index.checked_mul(2) {
        Some(doubled) => match doubled.checked_add(1) {
            Some(odd) => odd,
            None => return Err(Error::Overflow),
        },
        None => return Err(Error::Overflow),
    };
    Fixed::encode_integer(odd_integer, format)
}

/// Coefficient provider for Lambert's continued fraction.
///
/// The generated expansion is:
///
/// ```text
///              x
/// --------------------------------
///       x²
/// 1 + ----------------------------
///             x²
///       3 + ----------------------
///                   x²
///             5 + --------
///                   7 + ...
/// ```
///
/// This finite continued fraction approximates `tanh(x)`.
#[derive(Clone, Copy, Debug, PartialEq, Eq, Structural, Hash)]
pub struct Lambert {
    x: Fixed,
    x_squared: Fixed,
    format: Format,
}

impl View for Lambert {
    type V = (Fixed, Fixed, Format);

    /// The argument, its square and the arithmetic format.
    closed spec fn view(&self) -> (Fixed, Fixed, Format) {
        (self.x, self.x_squared, self.format)
    }
}

impl Lambert {
    /// The provider with the given argument, square and format.
    pub closed spec fn spec_new(x: Fixed, x_squared: Fixed, format: Format) -> Lambert {
        Lambert { x, x_squared, format }
    }
}

/// A provider is determined by its parts.
pub broadcast proof fn lemma_lambert_view_of_new(x: Fixed, x_squared: Fixed, format: Format)
    ensures
        #[trigger] Lambert::spec_new(x, x_squared, format)@ == (x, x_squared, format),
{
}

/// What [`Lambert::with_arithmetic`] returns: the provider for `x` with the
/// square `x²` computed in `format` with `rounding`.
pub open spec fn lambert_for(x: Fixed, format: Format, rounding: RoundingMode) -> Result<Lambert, Error> {
    match scaled_product(x, x, format, rounding) {
        Ok(x_squared) => Ok(Lambert::spec_new(x, x_squared, format)),
        Err(error) => Err(error),
    }
}

/// The denominator of a level is the odd integer `2·index + 1`, encoded
/// exactly: its raw value is `(2·index + 1)·2^frac_bits`.
pub proof fn lemma_odd_denominators(index: int, format: Format)
    ensures
        odd_denominator(index, format) matches Ok(denominator) ==>
            denominator@ == (2 * index + 1) * two_to(format@ as int),
{
}

/// Lambert's fraction has an even square: the stored `x²` is rounded from
/// the exact square `x·x` and is never negative, and the provider for `-x`
/// stores the same square, so that every level after the first is shared.
pub proof fn lemma_lambert_square_is_even(x: Fixed, format: Format, rounding: RoundingMode)
    requires
        x@ != i64::MIN,
    ensures
        lambert_for(x, format, rounding) matches Ok(provider) ==> {
            &&& provider@.1@ >= 0
            &&& lambert_for(negated(x), format, rounding) == Ok::<Lambert, Error>(
                Lambert::spec_new(negated(x), provider@.1, format),
            )
        },
{
    let n = x@ as int;
    assert((-n) * (-n) == n * n) by (nonlinear_arith);
    assert(n * n >= 0) by (nonlinear_arith);
    lemma_pow2_pos(format@ as nat);
    lemma_nonnegative_quotient(n * n, two_to(format@ as int), rounding);
    assert(negated(x)@ == -n);
}

/// Providers that share the square and the format evaluate the same
/// backward tails, whatever their arguments.
proof fn lemma_lambert_tails_agree(
    provider: Lambert,
    other: Lambert,
    level: int,
    last: int,
    format: Format,
    rounding: RoundingMode,
)
    requires
        level >= 0,
        provider@.1 == other@.1,
        provider@.2 == other@.2,
    ensures
        backward_tail(&provider, level, last, format, rounding) == backward_tail(&other, level, last, format, rounding),
    decreases last - level,
{
    if level < last {
        lemma_lambert_tails_agree(provider, other, level + 1, last, format, rounding);
    }
}

/// `tanh` is odd: with rounding toward zero or to nearest (both symmetric
/// about zero), the backward evaluation of Lambert's fraction for `-x` is
/// minus that for `x`, at every depth.
pub proof fn lemma_lambert_fraction_is_odd(x: Fixed, format: Format, rounding: RoundingMode, depth: int)
    requires
        x@ != i64::MIN,
        rounding == RoundingMode::TowardZero || rounding == RoundingMode::Nearest,
    ensures
        lambert_for(x, format, rounding) matches Ok(provider) ==> (
            lambert_for(negated(x), format, rounding) matches Ok(mirror) && (
                backward_value(&provider, depth, format, rounding) matches Ok(value) ==> (value@ != i64::MIN ==>
                    backward_value(&mirror, depth, format, rounding) == Ok::<Fixed, Error>(negated(value)))
            )
        ),
{
    lemma_lambert_square_is_even(x, format, rounding);
    if let Ok(provider) = lambert_for(x, format, rounding) {
        let mirror = Lambert::spec_new(negated(x), provider@.1, format);
        lemma_lambert_tails_agree(provider, mirror, 0, depth - 1, format, rounding);
        if let Ok(tail) = backward_tail(&provider, 0, depth - 1, format, rounding) {
            if tail@ != 0 {
                let s = two_to(format@ as int);
                let n = x@ as int;
                assert((-n) * s == -(n * s)) by (nonlinear_arith);
                lemma_symmetric_rounding_is_odd(n * s, tail@ as int, rounding);
            }
        }
    }
}

impl Lambert {
    /// Creates a provider using integer arithmetic that rounds toward zero.
    pub fn new(x: Fixed) -> (r: Result<Self, Error>)
        ensures
            r == lambert_for(x, Format::spec_new(0), RoundingMode::TowardZero),
    {
        Self::with_arithmetic(x, Format::new(0), RoundingMode::TowardZero)
    }

    /// Creates a provider using explicit fixed-point arithmetic.
    pub fn with_arithmetic(x: Fixed, format: Format, rounding: RoundingMode) -> (r: Result<Self, Error>)
        ensures
            r == lambert_for(x, format, rounding),
    {
        let x_squared = match x.checked_mul_scaled(x, format, rounding) {
            Ok(x_squared) => x_squared,
            Err(error) => return Err(error),
        };
        Ok(Self { x, x_squared, format })
    }

    pub fn x(self) -> (x: Fixed)
        ensures
            x == self@.0,
    {
        self.x
    }

    pub fn x_squared(self) -> (x_squared: Fixed)
        ensures
            x_squared == self@.1,
    {
        self.x_squared
    }

    pub fn format(self) -> (format: Format)
        ensures
            format == self@.2,
    {
        self.format
    }

    fn denominator(&self, index: usize) -> (r: Result<Fixed, Error>)
        ensures
            r == odd_denominator(index as int, self@.2),
    {
        odd_level_denominator(index, self.format)
    }
}

impl CoefficientProvider for Lambert {
    /// `b₀ = 0`.
    open spec fn initial_term(&self) -> Fixed {
        Fixed::spec_from_raw(0)
    }

    /// `(x, 1)` at index zero and `(x², 2·index + 1)` after it.
    open spec fn coefficient_at(&self, index: int) -> Result<Coefficient, Error> {
        let numerator = if index == 0 {
            self@.0
        } else {
            self@.1
        };
        match odd_denominator(index, self@.2) {
            Ok(denominator) => Ok(Coefficient::spec_new(numerator, denominator)),
            Err(error) => Err(error),
        }
    }

    fn initial(&self) -> (b0: Fixed) {
        Fixed::from_raw(0)
    }

    fn coefficient(&self, index: usize) -> (r: Result<Coefficient, Error>) {
        let numerator = if index == 0 {
            self.x
        } else {
            self.x_squared
        };
        match self.denominator(index) {
            Ok(denominator) => Ok(Coefficient::new(numerator, denominator)),
            Err(error) => Err(error),
        }
    }
}

} // verus!
