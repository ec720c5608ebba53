//! Inverse hyperbolic tangent continued fraction.

use vstd::prelude::*;
use crate::cf::coefficient::{Coefficient, CoefficientProvider, group_coefficient};
use crate::cf::lambert::{odd_denominator, odd_level_denominator};
use crate::error::Error;
use crate::cf::evaluator::{backward_tail, backward_value};
use crate::number::fixed::{Fixed, group_fixed, encoded_integer, negated, scaled_product};
use crate::number::format::{Format, two_to, lemma_two_to_bounds};
use crate::number::rounding::{
    RoundingMode, magnitude, rounded_quotient, lemma_exact_quotient, lemma_symmetric_rounding_is_odd,
};
use vstd::arithmetic::div_mod::{lemma_div_pos_is_pos, lemma_div_is_ordered};
use vstd::arithmetic::power2::lemma_pow2_pos;

verus! {

broadcast use {group_fixed, group_coefficient};

/// Coefficient provider for the inverse hyperbolic tangent.
///
/// The expansion is:
///
/// ```text
///                    x
/// atanh(x) = ---------------------
///                       x²
///             1 - ---------------
///                          4x²
///                   3 - ----------
///                              9x²
///                         5 - -----
///                              7 - ...
/// ```
///
/// In generalized continued-fraction form:
///
/// ```text
/// b₀ = 0
///
/// a₁ = x
/// b₁ = 1
///
/// aₙ = -(n - 1)² x²
/// bₙ = 2n - 1
/// ```
#[derive(Clone, Copy, Debug, PartialEq, Eq, Structural, Hash)]
pub struct Atanh {
    x: Fixed,
    x_squared: Fixed,
    format: Format,
    rounding: RoundingMode,
}

impl View for Atanh {
    type V = (Fixed, Fixed, Format, RoundingMode);

    /// The argument, its square, the arithmetic format and the rounding.
    closed spec fn view(&self) -> (Fixed, Fixed, Format, RoundingMode) {
        (self.x, self.x_squared, self.format, self.rounding)
    }
}

impl Atanh {
    /// The provider with the given argument, square, format and rounding.
    pub closed spec fn spec_new(x: Fixed, x_squared: Fixed, format: Format, rounding: RoundingMode) -> Atanh {
        Atanh { x, x_squared, format, rounding }
    }
}

/// A provider is determined by its parts.
pub broadcast proof fn lemma_atanh_view_of_new(
    x: Fixed,
    x_squared: Fixed,
    format: Format,
    rounding: RoundingMode,
)
    ensures
        #[trigger] Atanh::spec_new(x, x_squared, format, rounding)@ == (x, x_squared, format, rounding),
{
}

/// What [`Atanh::with_arithmetic`] returns: `Domain` unless `|x|` is below
/// one in `format`, otherwise the provider for `x` with `x²` computed with
/// `rounding`.
pub open spec fn atanh_for(x: Fixed, format: Format, rounding: RoundingMode) -> Result<Atanh, Error> {
    match encoded_integer(1, format) {
        Err(error) => Err(error),
        Ok(one) => if x@ == i64::MIN {
            Err(Error::Overflow)
        } else if magnitude(x@ as int) >= one@ {
            Err(Error::Domain)
        } else {
            match scaled_product(x, x, format, rounding) {
                Ok(x_squared) => Ok(Atanh::spec_new(x, x_squared, format, rounding)),
                Err(error) => Err(error),
            }
        },
    }
}

/// The square `index²` encoded in `format`.
pub open spec fn squared_index_in(index: int, format: Format) -> Result<Fixed, Error> {
    if index > i64::MAX || index * index > i64::MAX {
        Err(Error::Overflow)
    } else {
        encoded_integer(index * index, format)
    }
}

/// The numerator `-(index² · x²)` of a level after the first.
pub open spec fn later_numerator_of(provider: Atanh, index: int) -> Result<Fixed, Error> {
    match squared_index_in(index, provider@.2) {
        Err(error) => Err(error),
        Ok(multiplier) => match scaled_product(provider@.1, multiplier, provider@.2, provider@.3) {
            Err(error) => Err(error),
            Ok(value) => if value@ == i64::MIN {
                Err(Error::Overflow)
            } else {
                Ok(Fixed::spec_from_raw(-value@ as i64))
            },
        },
    }
}

/// A nonnegative quotient by a positive divisor rounds to a nonnegative
/// integer in every mode.
pub(crate) proof fn lemma_nonnegative_quotient(n: int, d: int, mode: RoundingMode)
    requires
        n >= 0,
        d > 0,
    ensures
        rounded_quotient(n, d, mode) >= 0,
{
    lemma_div_pos_is_pos(n, d);
    lemma_div_pos_is_pos(2 * n + d, 2 * d);
    lemma_div_is_ordered(-n, 0, d);
    assert(0int / d == 0) by {
        vstd::arithmetic::div_mod::lemma_div_of0(d);
    }
}

/// `atanh` has an even square: the provider stores `x²` rounded from the
/// exact square `x·x`, which is never negative, and the provider for `-x`
/// stores the same square. Its levels after the first are those of the
/// provider for `x`, and its first numerator is `-x` over the same
/// denominator.
pub proof fn lemma_atanh_square_is_even(x: Fixed, format: Format, rounding: RoundingMode)
    requires
        x@ != i64::MIN,
    ensures
        atanh_for(x, format, rounding) matches Ok(provider) ==> {
            &&& provider@.1@ >= 0
            &&& atanh_for(negated(x), format, rounding) == Ok::<Atanh, Error>(
                Atanh::spec_new(negated(x), provider@.1, format, rounding),
            )
            &&& forall|i: int| i != 0 ==> #[trigger] Atanh::spec_new(negated(x), provider@.1, format, rounding).coefficient_at(i)
                == provider.coefficient_at(i)
        },
{
    let n = x@ as int;
    assert((-n) * (-n) == n * n) by (nonlinear_arith);
    assert(n * n >= 0) by (nonlinear_arith);
    if format@ <= 64 {
        lemma_two_to_bounds(format@ as int);
    }
    lemma_pow2_pos(format@ as nat);
    lemma_nonnegative_quotient(n * n, two_to(format@ as int), rounding);
    assert(negated(x)@ == -n);
}

/// Every level after the first has numerator `-(index²·x²)` exactly, for the
/// stored square `x²`: `aₙ = -(n - 1)²·x²`.
pub proof fn lemma_atanh_later_numerators(provider: Atanh, index: int)
    requires
        index >= 1,
    ensures
        later_numerator_of(provider, index) matches Ok(numerator) ==>
            numerator@ == -(index * index * provider@.1@),
{
    let format = provider@.2;
    if let Ok(multiplier) = squared_index_in(index, format) {
        if format@ <= 64 {
            lemma_two_to_bounds(format@ as int);
        }
        lemma_pow2_pos(format@ as nat);
        let s = two_to(format@ as int);
        let q = provider@.1@ as int;
        assert(q * ((index * index) * s) == (q * (index * index)) * s) by (nonlinear_arith);
        assert(q * (index * index) == index * index * q) by (nonlinear_arith);
        lemma_exact_quotient(q * (index * index), s, provider@.3);
    }
}

/// Providers that share the square, the format and the rounding evaluate the
/// same backward tails, whatever their arguments.
proof fn lemma_atanh_tails_agree(
    provider: Atanh,
    other: Atanh,
    level: int,
    last: int,
    format: Format,
    rounding: RoundingMode,
)
    requires
        level >= 0,
        provider@.1 == other@.1,
        provider@.2 == other@.2,
        provider@.3 == other@.3,
    ensures
        backward_tail(&provider, level, last, format, rounding) == backward_tail(&other, level, last, format, rounding),
    decreases last - level,
{
    if level < last {
        lemma_atanh_tails_agree(provider, other, level + 1, last, format, rounding);
    }
}

/// `atanh` is odd: with rounding toward zero or to nearest (both symmetric
/// about zero), the backward evaluation of the fraction for `-x` is minus
/// that for `x`, at every depth.
pub proof fn lemma_atanh_fraction_is_odd(x: Fixed, format: Format, rounding: RoundingMode, depth: int)
    requires
        x@ != i64::MIN,
        rounding == RoundingMode::TowardZero || rounding == RoundingMode::Nearest,
    ensures
        atanh_for(x, format, rounding) matches Ok(provider) ==> (
            atanh_for(negated(x), format, rounding) matches Ok(mirror) && (
                backward_value(&provider, depth, format, rounding) matches Ok(value) ==> (value@ != i64::MIN ==>
                    backward_value(&mirror, depth, format, rounding) == Ok::<Fixed, Error>(negated(value)))
            )
        ),
{
    lemma_atanh_square_is_even(x, format, rounding);
    if let Ok(provider) = atanh_for(x, format, rounding) {
        let mirror = Atanh::spec_new(negated(x), provider@.1, format, rounding);
        lemma_atanh_tails_agree(provider, mirror, 0, depth - 1, format, rounding);
        if let Ok(tail) = backward_tail(&provider, 0, depth - 1, format, rounding) {
            if tail@ != 0 {
                let s = two_to(format@ as int);
                let n = x@ as int;
                assert((-n) * s == -(n * s)) by (nonlinear_arith);
                lemma_symmetric_rounding_is_odd(n * s, tail@ as int, rounding);
            }
        }
    }
}

impl Atanh {
    /// Creates an integer-format provider.
    pub fn new(x: Fixed) -> (r: Result<Self, Error>)
        ensures
            r == atanh_for(x, Format::spec_new(0), RoundingMode::TowardZero),
    {
        Self::with_arithmetic(x, Format::new(0), RoundingMode::TowardZero)
    }

    /// Creates a provider using explicit fixed-point arithmetic.
    ///
    /// The argument must lie strictly between minus one and one.
    pub fn with_arithmetic(x: Fixed, format: Format, rounding: RoundingMode) -> (r: Result<Self, Error>)
        ensures
            r == atanh_for(x, format, rounding),
            r is Ok ==> (encoded_integer(1, format) matches Ok(one) && magnitude(x@ as int) < one@),
    {
        let one = match Fixed::encode_integer(1, format) {
            Ok(one) => one,
            Err(error) => return Err(error),
        };
        let absolute_x = match x.checked_abs() {
            Some(absolute_x) => absolute_x,
            None => return Err(Error::Overflow),
        };
        if absolute_x.raw() >= one.raw() {
            return Err(Error::Domain);
        }
        let x_squared = match x.checked_mul_scaled(x, format, rounding) {
            Ok(x_squared) => x_squared,
            Err(error) => return Err(error),
        };
        Ok(Self { x, x_squared, format, rounding })
    }

    pub fn x(self) -> (x: Fixed)
        ensures
            x == self@.0,
    {
        self.x
    }

    pub fn x_squared(self) -> (x_squared: Fixed)
        ensures
            x_squared == self@.1,
    {
        self.x_squared
    }

    pub fn format(self) -> (format: Format)
        ensures
            format == self@.2,
    {
        self.format
    }

    pub fn rounding(self) -> (rounding: RoundingMode)
        ensures
            rounding == self@.3,
    {
        self.rounding
    }

    fn denominator(&self, index: usize) -> (r: Result<Fixed, Error>)
        ensures
            r == odd_denominator(index as int, self@.2),
    {
        odd_level_denominator(index, self.format)
    }

    fn squared_index(&self, index: usize) -> (r: Result<Fixed, Error>)
        ensures
            r == squared_index_in(index as int, self@.2),
    {
        if index as u64 > i64::MAX as u64 {
            return Err(Error::Overflow);
        }
        let index = index as i64;
        let squared = match index.checked_mul(index) {
            Some(squared) => squared,
            None => return Err(Error::Overflow),
        };
        Fixed::encode_integer(squared, self.format)
    }

    fn later_numerator(&self, index: usize) -> (r: Result<Fixed, Error>)
        ensures
            r == later_numerator_of(*self, index as int),
    {
        let multiplier = match self.squared_index(index) {
            Ok(multiplier) => multiplier,
            Err(error) => return Err(error),
        };
        let value = match self.x_squared.checked_mul_scaled(multiplier, self.format, self.rounding) {
            Ok(value) => value,
            Err(error) => return Err(error),
        };
        match value.checked_neg() {
            Some(negated) => Ok(negated),
            None => Err(Error::Overflow),
        }
    }
}

impl CoefficientProvider for Atanh {
    /// `b₀ = 0`.
    open spec fn initial_term(&self) -> Fixed {
        Fixed::spec_from_raw(0)
    }

    /// `(x, 1)` at index zero and `(-(index²·x²), 2·index + 1)` after it.
    open spec fn coefficient_at(&self, index: int) -> Result<Coefficient, Error> {
        let numerator = if index == 0 {
            Ok(self@.0)
        } else {
            later_numerator_of(*self, index)
        };
        match numerator {
            Err(error) => Err(error),
            Ok(numerator) => match odd_denominator(index, self@.2) {
                Ok(denominator) => Ok(Coefficient::spec_new(numerator, denominator)),
                Err(error) => Err(error),
            },
        }
    }

    fn initial(&self) -> (b0: Fixed) {
        Fixed::from_raw(0)
    }

    fn coefficient(&self, index: usize) -> (r: Result<Coefficient, Error>) {
        let numerator = if index == 0 {
            self.x
        } else {
            match self.later_numerator(index) {
                Ok(numerator) => numerator,
                Err(error) => return Err(error),
            }
        };
        match self.denominator(index) {
            Ok(denominator) => Ok(Coefficient::new(numerator, denominator)),
            Err(error) => Err(error),
        }
    }
}

} // verus!
