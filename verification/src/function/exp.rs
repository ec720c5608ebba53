//! Exponential function.

use vstd::prelude::*;
use crate::cf::algorithm::EvaluationAlgorithm;
use crate::cf::evaluator::{Evaluator, continued_fraction_value};
use crate::cf::lambert::{Lambert, lambert_for};
use crate::cf::model::group_fraction;
use crate::error::Error;
use crate::function::common::{EvaluationConfig, group_config};
use crate::number::constant::{ln_2, ln_2_in};
use crate::number::fixed::{
    Fixed, group_fixed, checked_difference, checked_sum, decoded_integer, encoded_integer,
    fixed_or_overflow, scaled_product, scaled_quotient,
};
use crate::number::format::{Format, two_to, power_of_two, lemma_two_to_bounds};
use crate::number::rounding::{
    RoundingMode, fits_i64, floor_div, magnitude, round_quotient, rounded_quotient,
    lemma_exact_quotient, lemma_rounding_modes_are_as_documented,
};
use crate::traits::evaluate::Evaluate;
use crate::traits::function::Function;

verus! {

broadcast use {group_fixed, group_config, group_fraction};

/// The range-reduction power `k = round(x / ln 2)`, decoded with the
/// configured rounding.
pub open spec fn reduction_power_of(
    input: Fixed,
    ln_two: Fixed,
    format: Format,
    rounding: RoundingMode,
) -> Result<i64, Error> {
    if ln_two@ == 0 {
        Err(Error::DivisionByZero)
    } else {
        match scaled_quotient(input, ln_two, format, rounding) {
            Err(error) => Err(error),
            Ok(quotient) => decoded_integer(quotient, format, rounding),
        }
    }
}

/// The reduced argument `r = x - k·ln 2`.
pub open spec fn reduced_argument_of(
    input: Fixed,
    power: i64,
    ln_two: Fixed,
    format: Format,
    rounding: RoundingMode,
) -> Result<Fixed, Error> {
    match encoded_integer(power as int, format) {
        Err(error) => Err(error),
        Ok(encoded_power) => match scaled_product(encoded_power, ln_two, format, rounding) {
            Err(error) => Err(error),
            Ok(multiple) => match checked_difference(input, multiple) {
                Some(reduced) => Ok(reduced),
                None => Err(Error::Overflow),
            },
        },
    }
}

/// `tanh(value)` by Lambert's continued fraction under `config`.
pub open spec fn lambert_tanh(value: Fixed, config: EvaluationConfig) -> Result<Fixed, Error> {
    match lambert_for(value, config@.0, config@.1) {
        Err(error) => Err(error),
        Ok(provider) => continued_fraction_value(&provider, config@.2 as int, config@.0, config@.1, config@.3),
    }
}

/// `exp(r) = (1 + tanh(r/2)) / (1 - tanh(r/2))` in the arithmetic of `config`.
pub open spec fn reduced_exponential(argument: Fixed, config: EvaluationConfig) -> Result<Fixed, Error> {
    let format = config@.0;
    let rounding = config@.1;
    match encoded_integer(1, format) {
        Err(error) => Err(error),
        Ok(one) => match encoded_integer(2, format) {
            Err(error) => Err(error),
            Ok(two) => match scaled_quotient(argument, two, format, rounding) {
                Err(error) => Err(error),
                Ok(half) => match lambert_tanh(half, config) {
                    Err(error) => Err(error),
                    Ok(tangent) => match checked_sum(one, tangent) {
                        None => Err(Error::Overflow),
                        Some(numerator) => match checked_difference(one, tangent) {
                            None => Err(Error::Overflow),
                            Some(denominator) => scaled_quotient(numerator, denominator, format, rounding),
                        },
                    },
                },
            },
        },
    }
}

/// `value · 2^power`: an exact multiplication for a positive power, which
/// fails with `Overflow` when the product does not fit (or the power reaches
/// 64); a division rounded toward negative infinity for a negative power,
/// which gives zero from a shift of 64 bits on, `Underflow` for a shift
/// beyond `u32::MAX` and `Overflow` for the power `i64::MIN`.
pub open spec fn scaled_by_power_of_two(value: Fixed, power: i64) -> Result<Fixed, Error> {
    if power == 0 {
        Ok(value)
    } else if power > 0 {
        if power >= 64 {
            Err(Error::Overflow)
        } else {
            fixed_or_overflow(value@ * two_to(power as int))
        }
    } else if power == i64::MIN {
        Err(Error::Overflow)
    } else if -power > u32::MAX {
        Err(Error::Underflow)
    } else if -power >= 64 {
        Ok(Fixed::spec_from_raw(0))
    } else {
        Ok(Fixed::spec_from_raw(floor_div(value@ as int, two_to(-power as int)) as i64))
    }
}

/// The exponential of `input` as [`Exp`] computes it under `config`:
///
/// ```text
/// x = k·ln(2) + r,   exp(x) = 2^k · exp(r)
/// ```
pub open spec fn exp_value(input: Fixed, config: EvaluationConfig) -> Result<Fixed, Error> {
    let format = config@.0;
    let rounding = config@.1;
    if config@.2 == 0 {
        Err(Error::InvalidDepth)
    } else if input@ == 0 {
        encoded_integer(1, format)
    } else {
        match ln_2_in(format, rounding) {
            Err(error) => Err(error),
            Ok(ln_two) => match reduction_power_of(input, ln_two, format, rounding) {
                Err(error) => Err(error),
                Ok(power) => match reduced_argument_of(input, power, ln_two, format, rounding) {
                    Err(error) => Err(error),
                    Ok(reduced) => match reduced_exponential(reduced, config) {
                        Err(error) => Err(error),
                        Ok(value) => scaled_by_power_of_two(value, power),
                    },
                },
            },
        }
    }
}

/// Fixed-point exponential function.
///
/// The implementation uses range reduction:
///
/// ```text
/// x = k·ln(2) + r
/// exp(x) = 2^k · exp(r)
/// ```
///
/// The reduced exponential is evaluated through:
///
/// ```text
/// exp(r) = (1 + tanh(r/2)) / (1 - tanh(r/2))
/// ```
#[derive(Clone, Copy, Debug, PartialEq, Eq, Structural)]
pub struct Exp {
    input: Fixed,
    config: EvaluationConfig,
}

impl View for Exp {
    type V = (Fixed, EvaluationConfig);

    /// The stored input and the evaluation configuration.
    closed spec fn view(&self) -> (Fixed, EvaluationConfig) {
        (self.input, self.config)
    }
}

impl Exp {
    /// Creates an exponential function using the default configuration.
    pub fn new(input: Fixed) -> (function: Self)
        ensures
            function@.0 == input,
            function@.1@ == (Format::spec_new(16), RoundingMode::Nearest, 16usize, EvaluationAlgorithm::Backward),
    {
        Self { input, config: EvaluationConfig::default() }
    }

    /// Creates an exponential function using an explicit configuration.
    pub fn with_config(input: Fixed, config: EvaluationConfig) -> (function: Self)
        ensures
            function@ == (input, config),
    {
        Self { input, config }
    }

    /// Returns the input value.
    pub fn input(&self) -> (input: Fixed)
        ensures
            input == self@.0,
    {
        self.input
    }

    /// Returns the evaluation configuration.
    pub fn config(&self) -> (config: EvaluationConfig)
        ensures
            config == self@.1,
    {
        self.config
    }

    /// Returns a new function using another input value.
    pub fn with_input(self, input: Fixed) -> (function: Self)
        ensures
            function@ == (input, self@.1),
    {
        let mut function = self;
        function.input = input;
        function
    }

    /// Returns a new function using another configuration.
    pub fn with_evaluation_config(self, config: EvaluationConfig) -> (function: Self)
        ensures
            function@ == (self@.0, config),
    {
        let mut function = self;
        function.config = config;
        function
    }

    /// Replaces the input value in place.
    pub fn set_input(&mut self, input: Fixed)
        ensures
            final(self)@ == (input, old(self)@.1),
    {
        self.input = input;
    }

    /// Replaces the evaluation configuration in place.
    pub fn set_config(&mut self, config: EvaluationConfig)
        ensures
            final(self)@ == (old(self)@.0, config),
    {
        self.config = config;
    }

    fn ln_two(&self) -> (r: Result<Fixed, Error>)
        ensures
            r == ln_2_in(self.config@.0, self.config@.1),
    {
        ln_2(self.config.format(), self.config.rounding())
    }

    fn one(&self) -> (r: Result<Fixed, Error>)
        ensures
            r == encoded_integer(1, self.config@.0),
    {
        Fixed::encode_integer(1, self.config.format())
    }

    fn half(&self, value: Fixed) -> (r: Result<Fixed, Error>)
        ensures
            r == match encoded_integer(2, self.config@.0) {
                Err(error) => Err(error),
                Ok(two) => scaled_quotient(value, two, self.config@.0, self.config@.1),
            },
    {
        let two = match Fixed::encode_integer(2, self.config.format()) {
            Ok(two) => two,
            Err(error) => return Err(error),
        };
        value.checked_div_scaled(two, self.config.format(), self.config.rounding())
    }

    /// Computes the integer range-reduction power `k`.
    fn reduction_power(&self, ln_two: Fixed) -> (r: Result<i64, Error>)
        ensures
            r == reduction_power_of(self.input, ln_two, self.config@.0, self.config@.1),
    {
        if ln_two.is_zero() {
            return Err(Error::DivisionByZero);
        }
        let quotient = match self.input.checked_div_scaled(ln_two, self.config.format(), self.config.rounding()) {
            Ok(quotient) => quotient,
            Err(error) => return Err(error),
        };
        Fixed::decode_integer(quotient, self.config.format(), self.config.rounding())
    }

    /// Computes `r = x - k·ln(2)`.
    fn reduced_argument(&self, power: i64, ln_two: Fixed) -> (r: Result<Fixed, Error>)
        ensures
            r == reduced_argument_of(self.input, power, ln_two, self.config@.0, self.config@.1),
    {
        let encoded_power = match Fixed::encode_integer(power, self.config.format()) {
            Ok(encoded_power) => encoded_power,
            Err(error) => return Err(error),
        };
        let multiple = match encoded_power.checked_mul_scaled(ln_two, self.config.format(), self.config.rounding()) {
            Ok(multiple) => multiple,
            Err(error) => return Err(error),
        };
        match self.input.checked_sub(multiple) {
            Some(reduced) => Ok(reduced),
            None => Err(Error::Overflow),
        }
    }

    /// Computes `tanh(value)` using Lambert's continued fraction.
    fn tanh(&self, value: Fixed) -> (r: Result<Fixed, Error>)
        ensures
            r == lambert_tanh(value, self.config),
    {
        let provider = match Lambert::with_arithmetic(value, self.config.format(), self.config.rounding()) {
            Ok(provider) => provider,
            Err(error) => return Err(error),
        };
        Evaluator::with_arithmetic(
            &provider,
            self.config.depth(),
            self.config.format(),
            self.config.rounding(),
        ).with_algorithm(self.config.algorithm()).evaluate()
    }

    /// Evaluates the exponential on the reduced interval.
    fn evaluate_reduced(&self, argument: Fixed) -> (r: Result<Fixed, Error>)
        ensures
            r == reduced_exponential(argument, self.config),
    {
        let one = match self.one() {
            Ok(one) => one,
            Err(error) => return Err(error),
        };
        let half_argument = match self.half(argument) {
            Ok(half_argument) => half_argument,
            Err(error) => return Err(error),
        };
        let tangent = match self.tanh(half_argument) {
            Ok(tangent) => tangent,
            Err(error) => return Err(error),
        };
        let numerator = match one.checked_add(tangent) {
            Some(numerator) => numerator,
            None => return Err(Error::Overflow),
        };
        let denominator = match one.checked_sub(tangent) {
            Some(denominator) => denominator,
            None => return Err(Error::Overflow),
        };
        numerator.checked_div_scaled(denominator, self.config.format(), self.config.rounding())
    }

    /// Multiplies or divides by `2^power`.
    fn scale_power_of_two(&self, value: Fixed, power: i64) -> (r: Result<Fixed, Error>)
        ensures
            r == scaled_by_power_of_two(value, power),
    {
        if power == 0 {
            return Ok(value);
        }
        if power > 0 {
            if power >= 64 {
                return Err(Error::Overflow);
            }
            let factor = power_of_two(power as u32) as i128;
            proof {
                lemma_two_to_bounds(power as int);
                assert(-0x8000_0000_0000_0000 * 0x8000_0000_0000_0000 <= value@ * factor
                    <= 0x8000_0000_0000_0000 * 0x8000_0000_0000_0000) by (nonlinear_arith)
                    requires
                        i64::MIN <= value@ <= i64::MAX,
                        1 <= factor <= 0x8000_0000_0000_0000,
                ;
            }
            let raw = (value.raw() as i128) * factor;
            if raw < i64::MIN as i128 || raw > i64::MAX as i128 {
                Err(Error::Overflow)
            } else {
                Ok(Fixed::from_raw(raw as i64))
            }
        } else {
            if power == i64::MIN {
                return Err(Error::Overflow);
            }
            let magnitude = -power;
            if magnitude > u32::MAX as i64 {
                return Err(Error::Underflow);
            }
            if magnitude >= 64 {
                return Ok(Fixed::from_raw(0));
            }
            let divisor = power_of_two(magnitude as u32) as i128;
            proof {
                lemma_two_to_bounds(magnitude as int);
            }
            let quotient = round_quotient(value.raw() as i128, divisor, RoundingMode::Floor);
            proof {
                lemma_rounding_modes_are_as_documented(value@ as int, divisor as int);
                if quotient > 0 {
                    assert(divisor * quotient >= quotient) by (nonlinear_arith)
                        requires
                            divisor >= 1,
                            quotient > 0,
                    ;
                }
            }
            Ok(Fixed::from_raw(quotient as i64))
        }
    }

    fn evaluate_inner(&self) -> (r: Result<Fixed, Error>)
        ensures
            r == exp_value(self.input, self.config),
    {
        if self.config.depth() == 0 {
            return Err(Error::InvalidDepth);
        }
        if self.input.is_zero() {
            return self.one();
        }
        let ln_two = match self.ln_two() {
            Ok(ln_two) => ln_two,
            Err(error) => return Err(error),
        };
        let power = match self.reduction_power(ln_two) {
            Ok(power) => power,
            Err(error) => return Err(error),
        };
        let reduced = match self.reduced_argument(power, ln_two) {
            Ok(reduced) => reduced,
            Err(error) => return Err(error),
        };
        let reduced_result = match self.evaluate_reduced(reduced) {
            Ok(reduced_result) => reduced_result,
            Err(error) => return Err(error),
        };
        self.scale_power_of_two(reduced_result, power)
    }
}

/// Range reduction with nearest rounding keeps the reduced argument within
/// half of `ln 2`, up to the second rounding: `k = round(round(x/ln 2))` and
/// `r = x - k·ln 2` satisfy `2·S·|r| <= (S + 1)·ln 2` for the scale `S`, so
/// `|r| <= ln(2)/2 + ln(2)/(2S)`. The multiple `k·ln 2` is computed exactly.
pub proof fn lemma_reduced_argument_is_small(input: Fixed, format: Format, ln_two: Fixed)
    requires
        format@ < 64,
        ln_two@ > 0,
    ensures
        reduction_power_of(input, ln_two, format, RoundingMode::Nearest) matches Ok(power) ==> (
            reduced_argument_of(input, power, ln_two, format, RoundingMode::Nearest) matches Ok(reduced) ==>
                2 * two_to(format@ as int) * magnitude(reduced@ as int)
                    <= (two_to(format@ as int) + 1) * ln_two@
        ),
{
    let s = two_to(format@ as int);
    let l = ln_two@ as int;
    let x = input@ as int;
    lemma_two_to_bounds(format@ as int);
    let q = rounded_quotient(x * s, l, RoundingMode::Nearest);
    lemma_rounding_modes_are_as_documented(x * s, l);
    let k = rounded_quotient(q, s, RoundingMode::Nearest);
    lemma_rounding_modes_are_as_documented(q, s);
    lemma_exact_quotient(k * l, s, RoundingMode::Nearest);
    assert((k * s) * l == (k * l) * s) by (nonlinear_arith);
    // 2S(x - kL) = 2(Sx - Lq) + 2L(q - Sk)
    assert(2 * s * (x - k * l) == 2 * (x * s - l * q) + l * (2 * (q - s * k))) by (nonlinear_arith);
    assert(magnitude(l * (2 * (q - s * k))) <= l * s) by (nonlinear_arith)
        requires
            l > 0,
            magnitude(2 * (q - s * k)) <= s,
    ;
    assert(2 * s * magnitude(x - k * l) == magnitude(2 * s * (x - k * l))) by (nonlinear_arith)
        requires
            s >= 1,
    ;
    assert(l * s + l == (s + 1) * l) by (nonlinear_arith);
}

/// The range reduction subtracts the exact multiple `k·ln 2`: a reduced
/// argument is `x - k·ln 2` in raw values.
pub proof fn lemma_reduction_is_exact(input: Fixed, power: i64, ln_two: Fixed, format: Format, rounding: RoundingMode)
    ensures
        reduced_argument_of(input, power, ln_two, format, rounding) matches Ok(reduced) ==>
            reduced@ == input@ - power * ln_two@,
{
    if let Ok(encoded) = encoded_integer(power as int, format) {
        if format@ <= 64 {
            lemma_two_to_bounds(format@ as int);
        } else {
            lemma_two_to_bounds(64);
            vstd::arithmetic::power2::lemma_pow2_strictly_increases(64, format@ as nat);
        }
        let s = two_to(format@ as int);
        let k = power as int;
        let l = ln_two@ as int;
        assert((k * s) * l == (k * l) * s) by (nonlinear_arith);
        lemma_exact_quotient(k * l, s, rounding);
    }
}

/// The final scaling by `2^k` is exact: for `0 <= k < 64` it gives the raw
/// value `v·2^k` whenever that fits in an `i64` and `Overflow` only when it
/// does not; for `-64 < k < 0` it gives `⌊v / 2^-k⌋`; a power of 64 or more
/// overflows. Scaling up and then down by the same power gives the value back.
pub proof fn lemma_scaling_by_a_power_of_two(value: Fixed, power: i64)
    ensures
        0 <= power < 64 && fits_i64(value@ * two_to(power as int)) ==>
            scaled_by_power_of_two(value, power) == Ok::<Fixed, Error>(Fixed::spec_from_raw((value@ * two_to(power as int)) as i64)),
        0 <= power < 64 && !fits_i64(value@ * two_to(power as int)) ==>
            scaled_by_power_of_two(value, power) == Err::<Fixed, Error>(Error::Overflow),
        power >= 64 ==> scaled_by_power_of_two(value, power) == Err::<Fixed, Error>(Error::Overflow),
        -64 < power < 0 ==> scaled_by_power_of_two(value, power) == Ok::<Fixed, Error>(
            Fixed::spec_from_raw(floor_div(value@ as int, two_to(-power as int)) as i64),
        ),
        0 < power < 64 ==> (scaled_by_power_of_two(value, power) matches Ok(scaled) ==>
            scaled_by_power_of_two(scaled, (-power) as i64) == Ok::<Fixed, Error>(value)),
{
    if 0 <= power < 64 {
        lemma_two_to_bounds(power as int);
        if power == 0 {
            assert(value@ * two_to(0) == value@);
        }
        lemma_exact_quotient(value@ as int, two_to(power as int), RoundingMode::Floor);
    }
}

/// `exp(x) = 2^k · exp(r)`: once the power `k`, the reduced argument `r` and
/// `v = exp(r)` are known, the exponential of a nonzero `x` is the raw value
/// `v·2^k` for `0 <= k < 64` whenever that fits in an `i64`, and `Overflow`
/// exactly when it does not; for `-64 < k < 0` it is `⌊v / 2^-k⌋`.
pub proof fn lemma_exp_is_the_scaled_reduced_exponential(
    input: Fixed,
    config: EvaluationConfig,
    ln_two: Fixed,
    power: i64,
    reduced: Fixed,
    value: Fixed,
)
    requires
        config@.2 != 0,
        input@ != 0,
        ln_2_in(config@.0, config@.1) == Ok::<Fixed, Error>(ln_two),
        reduction_power_of(input, ln_two, config@.0, config@.1) == Ok::<i64, Error>(power),
        reduced_argument_of(input, power, ln_two, config@.0, config@.1) == Ok::<Fixed, Error>(reduced),
        reduced_exponential(reduced, config) == Ok::<Fixed, Error>(value),
    ensures
        0 <= power < 64 && fits_i64(value@ * two_to(power as int)) ==>
            exp_value(input, config) == Ok::<Fixed, Error>(Fixed::spec_from_raw((value@ * two_to(power as int)) as i64)),
        0 <= power < 64 && !fits_i64(value@ * two_to(power as int)) ==>
            exp_value(input, config) == Err::<Fixed, Error>(Error::Overflow),
        -64 < power < 0 ==> exp_value(input, config) == Ok::<Fixed, Error>(
            Fixed::spec_from_raw(floor_div(value@ as int, two_to(-power as int)) as i64),
        ),
{
    lemma_scaling_by_a_power_of_two(value, power);
}

/// Laws of the exponential under a configuration `config`:
///
/// - a zero depth is rejected with `InvalidDepth`, whatever the input;
/// - otherwise `exp(0)` is exactly the encoded one;
/// - [`Function::evaluate`] on `x` gives what [`Evaluate::evaluate`] gives
///   for a function that stores `x` with the same configuration.
pub proof fn lemma_exp_laws(function: Exp, stored: Exp, x: Fixed, config: EvaluationConfig)
    requires
        stored@ == (x, function@.1),
    ensures
        config@.2 == 0 ==> exp_value(x, config) == Err::<Fixed, Error>(Error::InvalidDepth),
        config@.2 != 0 ==> exp_value(Fixed::spec_from_raw(0), config) == encoded_integer(1, config@.0),
        function.value_at(x) == stored.evaluation(),
{
}

impl Default for Exp {
    fn default() -> (function: Self)
        ensures
            function@.0@ == 0,
            function@.1@ == (Format::spec_new(16), RoundingMode::Nearest, 16usize, EvaluationAlgorithm::Backward),
    {
        Self::new(Fixed::from_raw(0))
    }
}

impl Evaluate<Result<Fixed, Error>> for Exp {
    /// The exponential of the stored input.
    open spec fn evaluation(&self) -> Result<Fixed, Error> {
        exp_value(self@.0, self@.1)
    }

    fn evaluate(&self) -> (r: Result<Fixed, Error>) {
        self.evaluate_inner()
    }
}

impl Function for Exp {
    open spec fn configuration(&self) -> EvaluationConfig {
        self@.1
    }

    /// The exponential of `x` under the stored configuration.
    open spec fn value_at(&self, x: Fixed) -> Result<Fixed, Error> {
        exp_value(x, self@.1)
    }

    fn config(&self) -> (config: EvaluationConfig) {
        self.config
    }

    fn evaluate(&self, input: Fixed) -> (r: Result<Fixed, Error>) {
        Self::with_config(input, self.config).evaluate_inner()
    }

    fn eval(&self, input: Fixed) -> (r: Result<Fixed, Error>) {
        Self::with_config(input, self.config).evaluate_inner()
    }
}

} // verus!
