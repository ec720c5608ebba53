//! Natural logarithm function.

use vstd::prelude::*;
use vstd::arithmetic::power2::{lemma_pow2_unfold, lemma_pow2_strictly_increases};
use crate::cf::algorithm::EvaluationAlgorithm;
use crate::cf::atanh::{Atanh, atanh_for};
use crate::cf::evaluator::{Evaluator, continued_fraction_value, sum_or_overflow};
use crate::cf::model::group_fraction;
use crate::error::Error;
use crate::function::common::{EvaluationConfig, group_config};
use crate::number::constant::{ln_2, ln_2_in};
use crate::number::fixed::{
    Fixed, group_fixed, checked_difference, checked_sum, encoded_integer, fixed_or_overflow,
    scaled_product, scaled_quotient,
};
use crate::number::format::{Format, two_to, lemma_two_to_bounds};
use crate::number::rounding::{
    RoundingMode, fits_i64, rounded_quotient, lemma_exact_quotient,
    lemma_rounding_modes_are_as_documented,
};
use crate::cf::atanh::lemma_nonnegative_quotient;
use crate::traits::evaluate::Evaluate;
use crate::traits::function::Function;

verus! {

broadcast use {group_fixed, group_config, group_fraction};

/// Halves `m` (rounding down) while it is at least `two`; the final value
/// and the number of halvings.
pub open spec fn halved_below(m: int, two: int) -> (int, int)
    decreases m,
{
    if two >= 2 && m >= two {
        let (rest, count) = halved_below(m / 2, two);
        (rest, count + 1)
    } else {
        (m, 0)
    }
}

/// Doubles a positive `m` while it is below `one`; the final value and the
/// number of doublings.
pub open spec fn doubled_to(m: int, one: int) -> (int, int)
    decreases (if m < one { one - m } else { 0 }),
{
    if 0 < m && m < one {
        let (rest, count) = doubled_to(2 * m, one);
        (rest, count + 1)
    } else {
        (m, 0)
    }
}

/// The decomposition `x = m·2^k` of a positive raw value, with `one <= m < two`
/// for the raw encodings `one` and `two` of 1 and 2: the mantissa and `k`.
pub open spec fn normalized_parts(x: int, one: int, two: int) -> (int, int) {
    let (halved, up) = halved_below(x, two);
    let (mantissa, down) = doubled_to(halved, one);
    (mantissa, up - down)
}

/// What [`Ln`] normalizes `input` to in `format`: the mantissa and the power of two.
pub open spec fn normalized_input(input: Fixed, format: Format) -> Result<(Fixed, i64), Error> {
    if input@ <= 0 {
        Err(Error::Domain)
    } else {
        match encoded_integer(1, format) {
            Err(error) => Err(error),
            Ok(one) => match encoded_integer(2, format) {
                Err(error) => Err(error),
                Ok(two) => {
                    let (mantissa, power) = normalized_parts(input@ as int, one@ as int, two@ as int);
                    Ok((Fixed::spec_from_raw(mantissa as i64), power as i64))
                },
            },
        }
    }
}

/// `(m - 1) / (m + 1)` in `format`.
pub open spec fn transformed_argument_of(mantissa: Fixed, format: Format, rounding: RoundingMode) -> Result<Fixed, Error> {
    match encoded_integer(1, format) {
        Err(error) => Err(error),
        Ok(one) => match checked_difference(mantissa, one) {
            None => Err(Error::Overflow),
            Some(numerator) => match checked_sum(mantissa, one) {
                None => Err(Error::Overflow),
                Some(denominator) => scaled_quotient(numerator, denominator, format, rounding),
            },
        },
    }
}

/// `atanh(value)` by its continued fraction under `config`.
pub open spec fn continued_atanh(value: Fixed, config: EvaluationConfig) -> Result<Fixed, Error> {
    match atanh_for(value, config@.0, config@.1) {
        Err(error) => Err(error),
        Ok(provider) => continued_fraction_value(&provider, config@.2 as int, config@.0, config@.1, config@.3),
    }
}

/// `ln(m) = 2·atanh((m - 1) / (m + 1))` for a normalized mantissa.
pub open spec fn mantissa_logarithm(mantissa: Fixed, config: EvaluationConfig) -> Result<Fixed, Error> {
    match transformed_argument_of(mantissa, config@.0, config@.1) {
        Err(error) => Err(error),
        Ok(argument) => match continued_atanh(argument, config) {
            Err(error) => Err(error),
            Ok(result) => match encoded_integer(2, config@.0) {
                Err(error) => Err(error),
                Ok(two) => scaled_product(result, two, config@.0, config@.1),
            },
        },
    }
}

/// `k·ln(2)`, which is zero for `k = 0`.
pub open spec fn power_logarithm(power: i64, format: Format, rounding: RoundingMode) -> Result<Fixed, Error> {
    if power == 0 {
        Ok(Fixed::spec_from_raw(0))
    } else {
        match encoded_integer(power as int, format) {
            Err(error) => Err(error),
            Ok(encoded_power) => match ln_2_in(format, rounding) {
                Err(error) => Err(error),
                Ok(ln_two) => scaled_product(encoded_power, ln_two, format, rounding),
            },
        }
    }
}

/// The natural logarithm of `input` as [`Ln`] computes it under `config`:
///
/// ```text
/// x = m·2^k,   ln(x) = ln(m) + k·ln(2)
/// ```
pub open spec fn ln_value(input: Fixed, config: EvaluationConfig) -> Result<Fixed, Error> {
    let format = config@.0;
    let rounding = config@.1;
    if config@.2 == 0 {
        Err(Error::InvalidDepth)
    } else if input@ <= 0 {
        Err(Error::Domain)
    } else {
        match encoded_integer(1, format) {
            Err(error) => Err(error),
            Ok(one) => if input == one {
                Ok(Fixed::spec_from_raw(0))
            } else {
                match normalized_input(input, format) {
                    Err(error) => Err(error),
                    Ok(parts) => match mantissa_logarithm(parts.0, config) {
                        Err(error) => Err(error),
                        Ok(mantissa_part) => match power_logarithm(parts.1, format, rounding) {
                            Err(error) => Err(error),
                            Ok(power_part) => sum_or_overflow(mantissa_part, power_part),
                        },
                    },
                }
            },
        }
    }
}

/// The number of halvings of a value below `2^bits` is at most `bits`.
proof fn lemma_halving_count(m: int, two: int, bits: int)
    requires
        0 < m < two_to(bits),
        0 <= bits,
    ensures
        0 <= halved_below(m, two).1 <= bits,
    decreases m,
{
    lemma_two_to_bounds(0);
    if two >= 2 && m >= two {
        lemma_pow2_unfold(bits as nat);
        lemma_halving_count(m / 2, two, bits - 1);
    }
}

/// A halving count is never negative.
proof fn lemma_halving_count_nonnegative(m: int, two: int)
    ensures
        halved_below(m, two).1 >= 0,
    decreases m,
{
    if two >= 2 && m >= two {
        lemma_halving_count_nonnegative(m / 2, two);
    }
}

/// A doubling count is never negative.
proof fn lemma_doubling_count_nonnegative(m: int, one: int)
    ensures
        doubled_to(m, one).1 >= 0,
    decreases (if m < one { one - m } else { 0 }),
{
    if 0 < m && m < one {
        lemma_doubling_count_nonnegative(2 * m, one);
    }
}

/// Halving stops below `two`, and never goes below `one` from a value at
/// least `one`, when `two = 2·one`.
proof fn lemma_halving_range(m: int, one: int, two: int)
    requires
        one >= 1,
        two == 2 * one,
        m >= 1,
    ensures
        1 <= halved_below(m, two).0 < two,
        m >= one ==> halved_below(m, two).0 >= one,
        m < two ==> halved_below(m, two).0 == m,
    decreases m,
{
    if m >= two {
        lemma_halving_range(m / 2, one, two);
    }
}

/// Doubling a positive value below `one` reaches `[one, 2·one)`, after at
/// most `bits - lower` steps when `2^lower <= m` and `one <= 2^bits`.
proof fn lemma_doubling(m: int, one: int, lower: int, bits: int)
    requires
        0 < m < 2 * one,
        0 <= lower,
        two_to(lower) <= m,
        one <= two_to(bits),
        0 <= bits,
    ensures
        one <= doubled_to(m, one).0 < 2 * one,
        0 <= doubled_to(m, one).1,
        m < one ==> doubled_to(m, one).1 <= bits - lower,
    decreases (if m < one { one - m } else { 0 }),
{
    if m < one {
        if lower >= bits {
            if lower > bits {
                lemma_pow2_strictly_increases(bits as nat, lower as nat);
            }
        }
        lemma_pow2_unfold((lower + 1) as nat);
        lemma_doubling(2 * m, one, lower + 1, bits);
    }
}

/// Halving `m` a number of times takes the integer part of `m / 2^count`.
proof fn lemma_halving_value(m: int, two: int)
    requires
        m >= 0,
    ensures
        halved_below(m, two).0 == m / two_to(halved_below(m, two).1),
    decreases m,
{
    lemma_halving_count_nonnegative(m, two);
    if two >= 2 && m >= two {
        lemma_halving_value(m / 2, two);
        let k = halved_below(m / 2, two).1;
        lemma_halving_count_nonnegative(m / 2, two);
        lemma_pow2_unfold((k + 1) as nat);
        lemma_two_to_bounds(0);
        vstd::arithmetic::power2::lemma_pow2_pos(k as nat);
        vstd::arithmetic::div_mod::lemma_div_denominator(m, 2, two_to(k));
        assert(halved_below(m, two) == (halved_below(m / 2, two).0, k + 1));
        assert(two_to(k + 1) == 2 * two_to(k));
        assert(halved_below(m / 2, two).0 == (m / 2) / two_to(k));
        assert((m / 2) / two_to(k) == m / (2 * two_to(k)));
        assert(halved_below(m, two).0 == m / two_to(k + 1));
    } else {
        lemma_two_to_bounds(0);
        assert(halved_below(m, two) == (m, 0int));
        assert(m / two_to(0) == m);
    }
}

/// Doubling `m` a number of times multiplies it by `2^count`.
proof fn lemma_doubling_value(m: int, one: int)
    ensures
        doubled_to(m, one).0 == m * two_to(doubled_to(m, one).1),
    decreases (if m < one { one - m } else { 0 }),
{
    lemma_doubling_count_nonnegative(m, one);
    lemma_two_to_bounds(0);
    if 0 < m && m < one {
        lemma_doubling_value(2 * m, one);
        let k = doubled_to(2 * m, one).1;
        lemma_doubling_count_nonnegative(2 * m, one);
        lemma_pow2_unfold((k + 1) as nat);
        assert((2 * m) * two_to(k) == m * (2 * two_to(k))) by (nonlinear_arith);
        assert(doubled_to(m, one) == (doubled_to(2 * m, one).0, k + 1));
        assert(two_to(k + 1) == 2 * two_to(k));
        assert(doubled_to(m, one).0 == m * two_to(k + 1));
    } else {
        assert(doubled_to(m, one) == (m, 0int));
        assert(m * two_to(0) == m);
    }
}

/// Fixed-point natural logarithm.
///
/// The input is normalized as:
///
/// ```text
/// x = m·2^k
/// 1 <= m < 2
/// ```
///
/// Then:
///
/// ```text
/// ln(x) = ln(m) + k·ln(2)
/// ln(m) = 2·atanh((m - 1) / (m + 1))
/// ```
#[derive(Clone, Copy, Debug, PartialEq, Eq, Structural)]
pub struct Ln {
    input: Fixed,
    config: EvaluationConfig,
}

impl View for Ln {
    type V = (Fixed, EvaluationConfig);

    /// The stored input and the evaluation configuration.
    closed spec fn view(&self) -> (Fixed, EvaluationConfig) {
        (self.input, self.config)
    }
}

impl Ln {
    /// Creates a natural logarithm using the default configuration.
    pub fn new(input: Fixed) -> (function: Self)
        ensures
            function@.0 == input,
            function@.1@ == (Format::spec_new(16), RoundingMode::Nearest, 16usize, EvaluationAlgorithm::Backward),
    {
        Self { input, config: EvaluationConfig::default() }
    }

    /// Creates a natural logarithm using an explicit configuration.
    pub fn with_config(input: Fixed, config: EvaluationConfig) -> (function: Self)
        ensures
            function@ == (input, config),
    {
        Self { input, config }
    }

    /// Returns the input value.
    pub fn input(&self) -> (input: Fixed)
        ensures
            input == self@.0,
    {
        self.input
    }

    /// Returns the evaluation configuration.
    pub fn config(&self) -> (config: EvaluationConfig)
        ensures
            config == self@.1,
    {
        self.config
    }

    /// Returns a new function using another input.
    pub fn with_input(self, input: Fixed) -> (function: Self)
        ensures
            function@ == (input, self@.1),
    {
        let mut function = self;
        function.input = input;
        function
    }

    /// Returns a new function using another configuration.
    pub fn with_evaluation_config(self, config: EvaluationConfig) -> (function: Self)
        ensures
            function@ == (self@.0, config),
    {
        let mut function = self;
        function.config = config;
        function
    }

    /// Replaces the input in place.
    pub fn set_input(&mut self, input: Fixed)
        ensures
            final(self)@ == (input, old(self)@.1),
    {
        self.input = input;
    }

    /// Replaces the evaluation configuration in place.
    pub fn set_config(&mut self, config: EvaluationConfig)
        ensures
            final(self)@ == (old(self)@.0, config),
    {
        self.config = config;
    }

    fn one(&self) -> (r: Result<Fixed, Error>)
        ensures
            r == encoded_integer(1, self.config@.0),
    {
        Fixed::encode_integer(1, self.config.format())
    }

    fn two(&self) -> (r: Result<Fixed, Error>)
        ensures
            r == encoded_integer(2, self.config@.0),
    {
        Fixed::encode_integer(2, self.config.format())
    }

    fn ln_two(&self) -> (r: Result<Fixed, Error>)
        ensures
            r == ln_2_in(self.config@.0, self.config@.1),
    {
        ln_2(self.config.format(), self.config.rounding())
    }

    /// Normalizes the input into `x = m·2^k`, where `1 <= m < 2`.
    ///
    /// For `k > 0` the mantissa is the integer part of `x / 2^k`, the
    /// halvings dropping the low bits; for `k <= 0` it is exactly `x · 2^-k`.
    fn normalize(&self) -> (r: Result<(Fixed, i64), Error>)
        ensures
            r == normalized_input(self.input, self.config@.0),
            r matches Ok(parts) ==> (
                encoded_integer(1, self.config@.0) matches Ok(one) &&
                encoded_integer(2, self.config@.0) matches Ok(two) &&
                one@ <= parts.0@ < two@
            ),
            r matches Ok(parts) ==> (
                (parts.1 >= 0 ==> parts.0@ == (self.input@ as int) / two_to(parts.1 as int))
                && (parts.1 < 0 ==> parts.0@ == self.input@ * two_to(-parts.1))
            ),
    {
        if !self.input.is_positive() {
            return Err(Error::Domain);
        }
        let one = match self.one() {
            Ok(one) => one,
            Err(error) => return Err(error),
        };
        let two = match self.two() {
            Ok(two) => two,
            Err(error) => return Err(error),
        };
        let format = self.config.format();
        let ghost input = self.input@ as int;
        proof {
            use_type_invariant(&format);
            lemma_two_to_bounds(format@ as int);
            lemma_two_to_bounds(61);
            if format@ >= 62 {
                assert(2 * two_to(format@ as int) > i64::MAX);
            } else if format@ < 61 {
                lemma_pow2_strictly_increases(format@ as nat, 61);
            }
            lemma_pow2_unfold(63);
            lemma_halving_count(input, two@ as int, 63);
            lemma_halving_range(input, one@ as int, two@ as int);
            lemma_halving_value(input, two@ as int);
            lemma_doubling_value(halved_below(input, two@ as int).0, one@ as int);
            lemma_doubling_count_nonnegative(halved_below(input, two@ as int).0, one@ as int);
        }
        let ghost halved = halved_below(input, two@ as int);
        let mut mantissa = self.input;
        let mut power: i64 = 0;
        while mantissa.raw() >= two.raw()
            invariant
                halved_below(mantissa@ as int, two@ as int) == (halved.0, halved.1 - power),
                0 <= power <= halved.1,
                halved.1 <= 63,
                mantissa@ >= 1,
                two@ >= 2,
            decreases mantissa@,
        {
            proof {
                lemma_halving_count_nonnegative(mantissa@ / 2, two@ as int);
            }
            mantissa = Fixed::from_raw(((mantissa.raw() as u64) / 2) as i64);
            power = power + 1;
        }
        let ghost doubled = doubled_to(halved.0, one@ as int);
        proof {
            lemma_doubling(halved.0, one@ as int, 0, 61);
        }
        while mantissa.raw() < one.raw()
            invariant
                doubled_to(mantissa@ as int, one@ as int) == (doubled.0, doubled.1 - (halved.1 - power)),
                halved.1 - 61 <= power <= halved.1,
                0 <= doubled.1 <= 61,
                0 <= halved.1 <= 63,
                mantissa@ >= 1,
                one@ <= two_to(61),
                two_to(61) == 0x2000_0000_0000_0000,
            decreases (if mantissa@ < one@ { one@ - mantissa@ } else { 0 }),
        {
            proof {
                lemma_doubling_count_nonnegative(2 * mantissa@, one@ as int);
            }
            mantissa = Fixed::from_raw(mantissa.raw() * 2);
            power = power - 1;
        }
        proof {
            assert(mantissa@ == doubled.0);
            assert(power == halved.1 - doubled.1);
            lemma_two_to_bounds(0);
            if halved.1 > 0 {
                assert(input >= two@);
                assert(doubled == (halved.0, 0int));
            } else {
                assert(two_to(halved.1) == 1);
                assert(input / 1 == input);
                assert(input / two_to(halved.1) == input);
                assert(halved.0 == input);
                if doubled.1 == 0 {
                    assert(input * two_to(0) == input);
                }
            }
        }
        Ok((mantissa, power))
    }

    /// Computes `(m - 1) / (m + 1)`.
    fn transformed_argument(&self, mantissa: Fixed) -> (r: Result<Fixed, Error>)
        ensures
            r == transformed_argument_of(mantissa, self.config@.0, self.config@.1),
    {
        let one = match self.one() {
            Ok(one) => one,
            Err(error) => return Err(error),
        };
        let numerator = match mantissa.checked_sub(one) {
            Some(numerator) => numerator,
            None => return Err(Error::Overflow),
        };
        let denominator = match mantissa.checked_add(one) {
            Some(denominator) => denominator,
            None => return Err(Error::Overflow),
        };
        numerator.checked_div_scaled(denominator, self.config.format(), self.config.rounding())
    }

    /// Evaluates `atanh(value)` through its continued fraction.
    fn atanh(&self, value: Fixed) -> (r: Result<Fixed, Error>)
        ensures
            r == continued_atanh(value, self.config),
    {
        let provider = match Atanh::with_arithmetic(value, self.config.format(), self.config.rounding()) {
            Ok(provider) => provider,
            Err(error) => return Err(error),
        };
        Evaluator::with_arithmetic(
            &provider,
            self.config.depth(),
            self.config.format(),
            self.config.rounding(),
        ).with_algorithm(self.config.algorithm()).evaluate()
    }

    /// Evaluates `ln(m)` for a normalized mantissa.
    fn normalized_logarithm(&self, mantissa: Fixed) -> (r: Result<Fixed, Error>)
        ensures
            r == mantissa_logarithm(mantissa, self.config),
    {
        let argument = match self.transformed_argument(mantissa) {
            Ok(argument) => argument,
            Err(error) => return Err(error),
        };
        let result = match self.atanh(argument) {
            Ok(result) => result,
            Err(error) => return Err(error),
        };
        let two = match self.two() {
            Ok(two) => two,
            Err(error) => return Err(error),
        };
        result.checked_mul_scaled(two, self.config.format(), self.config.rounding())
    }

    /// Computes `k·ln(2)`.
    fn power_component(&self, power: i64) -> (r: Result<Fixed, Error>)
        ensures
            r == power_logarithm(power, self.config@.0, self.config@.1),
    {
        if power == 0 {
            return Ok(Fixed::from_raw(0));
        }
        let encoded_power = match Fixed::encode_integer(power, self.config.format()) {
            Ok(encoded_power) => encoded_power,
            Err(error) => return Err(error),
        };
        let ln_two = match self.ln_two() {
            Ok(ln_two) => ln_two,
            Err(error) => return Err(error),
        };
        encoded_power.checked_mul_scaled(ln_two, self.config.format(), self.config.rounding())
    }

    fn evaluate_inner(&self) -> (r: Result<Fixed, Error>)
        ensures
            r == ln_value(self.input, self.config),
    {
        if self.config.depth() == 0 {
            return Err(Error::InvalidDepth);
        }
        if !self.input.is_positive() {
            return Err(Error::Domain);
        }
        let one = match self.one() {
            Ok(one) => one,
            Err(error) => return Err(error),
        };
        if self.input == one {
            return Ok(Fixed::from_raw(0));
        }
        let (mantissa, power) = match self.normalize() {
            Ok(parts) => parts,
            Err(error) => return Err(error),
        };
        let mantissa_logarithm = match self.normalized_logarithm(mantissa) {
            Ok(value) => value,
            Err(error) => return Err(error),
        };
        let power_logarithm = match self.power_component(power) {
            Ok(value) => value,
            Err(error) => return Err(error),
        };
        match mantissa_logarithm.checked_add(power_logarithm) {
            Some(value) => Ok(value),
            None => Err(Error::Overflow),
        }
    }
}

/// Rounding a quotient by a positive divisor stays below one unit above it:
/// `d·q < n + d` in every mode.
proof fn lemma_rounded_below_next(n: int, d: int, mode: RoundingMode)
    requires
        d > 0,
    ensures
        d * rounded_quotient(n, d, mode) < n + d,
{
    lemma_rounding_modes_are_as_documented(n, d);
}

/// For a normalized mantissa `1 <= m < 2`, the argument `(m - 1) / (m + 1)`
/// of `atanh` lies in `[0, 1/3]`: its raw value `t` satisfies `0 <= t` and
/// `3·t <= one + 2`, the two allowing for the rounding of the quotient.
pub proof fn lemma_transformed_argument_is_small(mantissa: Fixed, format: Format, rounding: RoundingMode)
    requires
        encoded_integer(1, format) matches Ok(one) && one@ <= mantissa@ < 2 * one@,
    ensures
        transformed_argument_of(mantissa, format, rounding) matches Ok(argument) ==> (
            encoded_integer(1, format) matches Ok(one) && 0 <= argument@ && 3 * argument@ <= one@ + 2
        ),
{
    if format@ <= 64 {
        lemma_two_to_bounds(format@ as int);
    } else {
        lemma_two_to_bounds(64);
        lemma_pow2_strictly_increases(64, format@ as nat);
    }
    let s = two_to(format@ as int);
    let m = mantissa@ as int;
    let n = (m - s) * s;
    let d = m + s;
    assert(1 * s == s);
    assert(n >= 0) by (nonlinear_arith)
        requires
            n == (m - s) * s,
            m >= s,
            s >= 1,
    ;
    assert(3 * n < d * s) by (nonlinear_arith)
        requires
            n == (m - s) * s,
            d == m + s,
            m < 2 * s,
            s >= 1,
    ;
    lemma_nonnegative_quotient(n, d, rounding);
    lemma_rounded_below_next(n, d, rounding);
    let q = rounded_quotient(n, d, rounding);
    assert(3 * q <= s + 2) by (nonlinear_arith)
        requires
            d * q < n + d,
            3 * n < d * s,
            d > 0,
    ;
}

/// The power part `k·ln 2` is exact: for a nonzero `k` whose encoding fits,
/// its raw value is `k` times the raw `ln 2`, or `Overflow` when that does
/// not fit.
pub proof fn lemma_power_part_is_exact(power: i64, format: Format, rounding: RoundingMode, ln_two: Fixed)
    requires
        ln_2_in(format, rounding) == Ok::<Fixed, Error>(ln_two),
    ensures
        power != 0 && encoded_integer(power as int, format) is Ok ==>
            power_logarithm(power, format, rounding) == fixed_or_overflow(power * ln_two@),
{
    if format@ <= 64 {
        lemma_two_to_bounds(format@ as int);
    } else {
        lemma_two_to_bounds(64);
        lemma_pow2_strictly_increases(64, format@ as nat);
    }
    let s = two_to(format@ as int);
    let k = power as int;
    let l = ln_two@ as int;
    assert((k * s) * l == (k * l) * s) by (nonlinear_arith);
    lemma_exact_quotient(k * l, s, rounding);
}

/// `ln(m) = 2·atanh((m - 1) / (m + 1))`: the mantissa part is exactly twice
/// the evaluated `atanh`, `Overflow` when twice that does not fit, and with the
/// power part `k·ln 2` the logarithm of an input other than one is their sum.
pub proof fn lemma_ln_doubles_the_atanh(
    input: Fixed,
    config: EvaluationConfig,
    mantissa: Fixed,
    power: i64,
    argument: Fixed,
    atanh: Fixed,
    power_part: Fixed,
)
    requires
        config@.2 != 0,
        input@ > 0,
        encoded_integer(1, config@.0) matches Ok(one) && input != one,
        normalized_input(input, config@.0) == Ok::<(Fixed, i64), Error>((mantissa, power)),
        transformed_argument_of(mantissa, config@.0, config@.1) == Ok::<Fixed, Error>(argument),
        continued_atanh(argument, config) == Ok::<Fixed, Error>(atanh),
        power_logarithm(power, config@.0, config@.1) == Ok::<Fixed, Error>(power_part),
    ensures
        fits_i64(2 * atanh@) ==> mantissa_logarithm(mantissa, config) == Ok::<Fixed, Error>(Fixed::spec_from_raw((2 * atanh@) as i64)),
        !fits_i64(2 * atanh@) ==> mantissa_logarithm(mantissa, config) == Err::<Fixed, Error>(Error::Overflow),
        fits_i64(2 * atanh@) && fits_i64(2 * atanh@ + power_part@) ==>
            ln_value(input, config) == Ok::<Fixed, Error>(Fixed::spec_from_raw((2 * atanh@ + power_part@) as i64)),
        !fits_i64(2 * atanh@) || !fits_i64(2 * atanh@ + power_part@) ==>
            ln_value(input, config) == Err::<Fixed, Error>(Error::Overflow),
{
    let format = config@.0;
    lemma_two_to_bounds(0);
    if format@ <= 64 {
        lemma_two_to_bounds(format@ as int);
    } else {
        lemma_two_to_bounds(64);
        lemma_pow2_strictly_increases(64, format@ as nat);
    }
    let s = two_to(format@ as int);
    let a = atanh@ as int;
    assert(encoded_integer(2, format) is Ok);
    let two = encoded_integer(2, format)->Ok_0;
    assert(two@ == 2 * s);
    assert(a * (2 * s) == (2 * a) * s) by (nonlinear_arith);
    lemma_exact_quotient(2 * a, s, config@.1);
    assert(scaled_product(atanh, two, format, config@.1) == fixed_or_overflow(2 * a));
}

/// Laws of the natural logarithm under a configuration `config`:
///
/// - a zero depth is rejected with `InvalidDepth`, whatever the input;
/// - otherwise a zero or negative input is outside the domain;
/// - `ln(1)` is exactly zero in every format that can hold one;
/// - a result is only ever produced for a positive input;
/// - [`Function::evaluate`] on `x` gives what [`Evaluate::evaluate`] gives
///   for a function that stores `x` with the same configuration.
pub proof fn lemma_ln_laws(function: Ln, stored: Ln, x: Fixed, config: EvaluationConfig)
    requires
        stored@ == (x, function@.1),
    ensures
        config@.2 == 0 ==> ln_value(x, config) == Err::<Fixed, Error>(Error::InvalidDepth),
        config@.2 != 0 && x@ <= 0 ==> ln_value(x, config) == Err::<Fixed, Error>(Error::Domain),
        config@.2 != 0 ==> (encoded_integer(1, config@.0) matches Ok(one) ==> ln_value(one, config) == Ok::<Fixed, Error>(Fixed::spec_from_raw(0))),
        ln_value(x, config) is Ok ==> x@ > 0,
        function.value_at(x) == stored.evaluation(),
{
    if config@.0@ <= 64 {
        lemma_two_to_bounds(config@.0@ as int);
    } else {
        lemma_two_to_bounds(64);
        lemma_pow2_strictly_increases(64, config@.0@ as nat);
    }
}

impl Default for Ln {
    fn default() -> (function: Self)
        ensures
            function@.0@ == 0,
            function@.1@ == (Format::spec_new(16), RoundingMode::Nearest, 16usize, EvaluationAlgorithm::Backward),
    {
        Self::new(Fixed::from_raw(0))
    }
}

impl Evaluate<Result<Fixed, Error>> for Ln {
    /// The natural logarithm of the stored input.
    open spec fn evaluation(&self) -> Result<Fixed, Error> {
        ln_value(self@.0, self@.1)
    }

    fn evaluate(&self) -> (r: Result<Fixed, Error>) {
        self.evaluate_inner()
    }
}

impl Function for Ln {
    open spec fn configuration(&self) -> EvaluationConfig {
        self@.1
    }

    /// The natural logarithm of `x` under the stored configuration.
    open spec fn value_at(&self, x: Fixed) -> Result<Fixed, Error> {
        ln_value(x, self@.1)
    }

    fn config(&self) -> (config: EvaluationConfig) {
        self.config
    }

    fn evaluate(&self, input: Fixed) -> (r: Result<Fixed, Error>) {
        Self::with_config(input, self.config).evaluate_inner()
    }

    fn eval(&self, input: Fixed) -> (r: Result<Fixed, Error>) {
        Self::with_config(input, self.config).evaluate_inner()
    }
}

} // verus!
