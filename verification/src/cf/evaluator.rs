//! Generalized continued-fraction evaluator.

use vstd::prelude::*;
use crate::cf::algorithm::EvaluationAlgorithm;
use crate::cf::coefficient::{Coefficient, CoefficientProvider, group_coefficient};
use crate::cf::model::{ContinuedFraction, group_fraction};
use crate::error::Error;
use crate::number::fixed::{
    Fixed, group_fixed, checked_sum, encoded_integer, scaled_product, scaled_quotient,
};
use crate::number::format::Format;
use crate::number::rounding::RoundingMode;
use crate::traits::evaluate::Evaluate;

verus! {

broadcast use {group_fixed, group_coefficient, group_fraction};

/// The sum of two values, or `Overflow`.
pub open spec fn sum_or_overflow(a: Fixed, b: Fixed) -> Result<Fixed, Error> {
    match checked_sum(a, b) {
        Some(sum) => Ok(sum),
        None => Err(Error::Overflow),
    }
}

/// `value`, with zero replaced by the smallest positive raw value.
pub open spec fn nonzero_or_tiny(value: Fixed) -> Fixed {
    if value@ == 0 {
        Fixed::spec_from_raw(1)
    } else {
        value
    }
}

/// The tail `b_level + a_(level+1) / (b_(level+1) + ... + a_last / b_last)` of a
/// finite continued fraction, evaluated from the deepest level upward, each
/// quotient rounded in `format` with `rounding`.
pub open spec fn backward_tail<P: CoefficientProvider>(
    provider: &P,
    level: int,
    last: int,
    format: Format,
    rounding: RoundingMode,
) -> Result<Fixed, Error>
    decreases last - level,
{
    if level >= last {
        match provider.coefficient_at(last) {
            Err(error) => Err(error),
            Ok(deepest) => if deepest@.1@ == 0 {
                Err(Error::DivisionByZero)
            } else {
                Ok(deepest@.1)
            },
        }
    } else {
        match backward_tail(provider, level + 1, last, format, rounding) {
            Err(error) => Err(error),
            Ok(tail) => match provider.coefficient_at(level) {
                Err(error) => Err(error),
                Ok(current) => match provider.coefficient_at(level + 1) {
                    Err(error) => Err(error),
                    Ok(next) => match scaled_quotient(next@.0, tail, format, rounding) {
                        Err(error) => Err(error),
                        Ok(quotient) => sum_or_overflow(current@.1, quotient),
                    },
                },
            },
        }
    }
}

/// `b₀ + a₁ / (b₁ + a₂ / (... + a_depth / b_depth))` by backward recurrence.
pub open spec fn backward_value<P: CoefficientProvider>(
    provider: &P,
    depth: int,
    format: Format,
    rounding: RoundingMode,
) -> Result<Fixed, Error> {
    match backward_tail(provider, 0, depth - 1, format, rounding) {
        Err(error) => Err(error),
        Ok(tail) => match provider.coefficient_at(0) {
            Err(error) => Err(error),
            Ok(first) => match scaled_quotient(first@.0, tail, format, rounding) {
                Err(error) => Err(error),
                Ok(quotient) => sum_or_overflow(provider.initial_term(), quotient),
            },
        },
    }
}

/// One step of the modified Lentz recurrence at `index`, from the state
/// `(f, C, D)` to the next one:
///
/// ```text
/// D' = 1 / tiny(bₙ + aₙ·D)
/// C' = tiny(bₙ + aₙ / tiny(C))
/// f' = f · (C'·D')
/// ```
pub open spec fn lentz_step<P: CoefficientProvider>(
    provider: &P,
    index: int,
    state: (Fixed, Fixed, Fixed),
    one: Fixed,
    format: Format,
    rounding: RoundingMode,
) -> Result<(Fixed, Fixed, Fixed), Error> {
    let (result, c, d) = state;
    match provider.coefficient_at(index) {
        Err(error) => Err(error),
        Ok(coefficient) => {
            let a = coefficient@.0;
            let b = coefficient@.1;
            match scaled_product(a, d, format, rounding) {
                Err(error) => Err(error),
                Ok(a_times_d) => match sum_or_overflow(b, a_times_d) {
                    Err(error) => Err(error),
                    Ok(d_sum) => match scaled_quotient(a, nonzero_or_tiny(c), format, rounding) {
                        Err(error) => Err(error),
                        Ok(a_over_c) => match sum_or_overflow(b, a_over_c) {
                            Err(error) => Err(error),
                            Ok(c_sum) => match scaled_quotient(one, nonzero_or_tiny(d_sum), format, rounding) {
                                Err(error) => Err(error),
                                Ok(next_d) => match scaled_product(nonzero_or_tiny(c_sum), next_d, format, rounding) {
                                    Err(error) => Err(error),
                                    Ok(delta) => match scaled_product(result, delta, format, rounding) {
                                        Err(error) => Err(error),
                                        Ok(next_result) => Ok((next_result, nonzero_or_tiny(c_sum), next_d)),
                                    },
                                },
                            },
                        },
                    },
                },
            }
        },
    }
}

/// The modified Lentz state after `steps` levels, starting from
/// `f = C = tiny(b₀)` and `D = 0`.
pub open spec fn lentz_state<P: CoefficientProvider>(
    provider: &P,
    steps: int,
    one: Fixed,
    format: Format,
    rounding: RoundingMode,
) -> Result<(Fixed, Fixed, Fixed), Error>
    decreases steps,
{
    if steps <= 0 {
        let start = nonzero_or_tiny(provider.initial_term());
        Ok((start, start, Fixed::spec_from_raw(0)))
    } else {
        match lentz_state(provider, steps - 1, one, format, rounding) {
            Err(error) => Err(error),
            Ok(state) => lentz_step(provider, steps - 1, state, one, format, rounding),
        }
    }
}

/// The continued fraction evaluated by the modified Lentz method.
pub open spec fn lentz_value<P: CoefficientProvider>(
    provider: &P,
    depth: int,
    format: Format,
    rounding: RoundingMode,
) -> Result<Fixed, Error> {
    match encoded_integer(1, format) {
        Err(error) => Err(error),
        Ok(one) => match lentz_state(provider, depth, one, format, rounding) {
            Err(error) => Err(error),
            Ok(state) => Ok(state.0),
        },
    }
}

/// The value of the finite continued fraction with `depth` levels, as the
/// selected algorithm computes it; `InvalidDepth` for zero levels.
pub open spec fn continued_fraction_value<P: CoefficientProvider>(
    provider: &P,
    depth: int,
    format: Format,
    rounding: RoundingMode,
    algorithm: EvaluationAlgorithm,
) -> Result<Fixed, Error> {
    if depth == 0 {
        Err(Error::InvalidDepth)
    } else {
        match algorithm {
            EvaluationAlgorithm::Backward => backward_value(provider, depth, format, rounding),
            EvaluationAlgorithm::Lentz => lentz_value(provider, depth, format, rounding),
        }
    }
}

/// Both algorithms reject a fraction without levels: a zero depth gives
/// `InvalidDepth` for every provider, format and rounding.
pub proof fn lemma_zero_depth_is_rejected<P: CoefficientProvider>(
    provider: &P,
    format: Format,
    rounding: RoundingMode,
)
    ensures
        continued_fraction_value(provider, 0, format, rounding, EvaluationAlgorithm::Backward)
            == Err::<Fixed, Error>(Error::InvalidDepth),
        continued_fraction_value(provider, 0, format, rounding, EvaluationAlgorithm::Lentz)
            == Err::<Fixed, Error>(Error::InvalidDepth),
{
}

/// A failure at one level of the backward recurrence is the failure of
/// every shallower level.
proof fn lemma_backward_failure_rises<P: CoefficientProvider>(
    provider: &P,
    level: int,
    upper: int,
    last: int,
    format: Format,
    rounding: RoundingMode,
)
    requires
        0 <= upper <= level <= last,
        backward_tail(provider, level, last, format, rounding) is Err,
    ensures
        backward_tail(provider, upper, last, format, rounding) == backward_tail(provider, level, last, format, rounding),
    decreases level - upper,
{
    if upper < level {
        lemma_backward_failure_rises(provider, level, upper + 1, last, format, rounding);
    }
}

/// A failure at one Lentz step is the failure of every later step.
proof fn lemma_lentz_failure_persists<P: CoefficientProvider>(
    provider: &P,
    steps: int,
    later: int,
    one: Fixed,
    format: Format,
    rounding: RoundingMode,
)
    requires
        0 <= steps <= later,
        lentz_state(provider, steps, one, format, rounding) is Err,
    ensures
        lentz_state(provider, later, one, format, rounding) == lentz_state(provider, steps, one, format, rounding),
    decreases later - steps,
{
    if steps < later {
        lemma_lentz_failure_persists(provider, steps, later - 1, one, format, rounding);
    }
}

/// The tail of a provider whose levels are those of another provider from
/// its second level on is that provider's tail one level deeper.
proof fn lemma_tail_of_shifted_provider<P: CoefficientProvider, Q: CoefficientProvider>(
    provider: &P,
    rest: &Q,
    level: int,
    last: int,
    format: Format,
    rounding: RoundingMode,
)
    requires
        0 <= level <= last,
        forall|i: int| i >= 0 ==> #[trigger] rest.coefficient_at(i) == provider.coefficient_at(i + 1),
    ensures
        backward_tail(rest, level, last, format, rounding)
            == backward_tail(provider, level + 1, last + 1, format, rounding),
    decreases last - level,
{
    assert(rest.coefficient_at(last) == provider.coefficient_at(last + 1));
    assert(rest.coefficient_at(level) == provider.coefficient_at(level + 1));
    if level < last {
        assert(rest.coefficient_at(level + 1) == provider.coefficient_at(level + 2));
        lemma_tail_of_shifted_provider(provider, rest, level + 1, last, format, rounding);
    }
}

/// A tail that evaluates has read every level from `level` to `last`.
proof fn lemma_tail_reads_its_levels<P: CoefficientProvider>(
    provider: &P,
    level: int,
    last: int,
    format: Format,
    rounding: RoundingMode,
)
    requires
        level <= last,
        backward_tail(provider, level, last, format, rounding) is Ok,
    ensures
        forall|i: int| level <= i <= last ==> #[trigger] provider.coefficient_at(i) is Ok,
    decreases last - level,
{
    if level < last {
        lemma_tail_reads_its_levels(provider, level + 1, last, format, rounding);
    }
}

/// A fraction of one level is `b₀ + a₁ / b₁`; a zero `b₁` is a division by
/// zero.
pub proof fn lemma_backward_single_level<P: CoefficientProvider>(
    provider: &P,
    format: Format,
    rounding: RoundingMode,
)
    ensures
        backward_value(provider, 1, format, rounding) == match provider.coefficient_at(0) {
            Err(error) => Err(error),
            Ok(level) => if level@.1@ == 0 {
                Err(Error::DivisionByZero)
            } else {
                match scaled_quotient(level@.0, level@.1, format, rounding) {
                    Err(error) => Err(error),
                    Ok(quotient) => sum_or_overflow(provider.initial_term(), quotient),
                }
            },
        },
{
}

/// The backward recurrence evaluates `b₀ + a₁ / (rest)`, where `rest` is the
/// fraction made of the remaining levels: for a provider `rest` whose initial
/// term is `b₁` and whose levels are `(a₂, b₂), (a₃, b₃), ...`, the fraction
/// of `depth + 1` levels is `b₀ + a₁ / v` for the value `v` of `rest` with
/// `depth` levels. Every requested level takes part, at every depth.
pub proof fn lemma_backward_peels_the_first_level<P: CoefficientProvider, Q: CoefficientProvider>(
    provider: &P,
    rest: &Q,
    depth: int,
    format: Format,
    rounding: RoundingMode,
)
    requires
        depth >= 1,
        provider.coefficient_at(0) is Ok,
        rest.initial_term() == provider.coefficient_at(0)->Ok_0@.1,
        forall|i: int| i >= 0 ==> #[trigger] rest.coefficient_at(i) == provider.coefficient_at(i + 1),
    ensures
        backward_value(provider, depth + 1, format, rounding) == match backward_value(rest, depth, format, rounding) {
            Err(error) => Err(error),
            Ok(value) => match scaled_quotient(provider.coefficient_at(0)->Ok_0@.0, value, format, rounding) {
                Err(error) => Err(error),
                Ok(quotient) => sum_or_overflow(provider.initial_term(), quotient),
            },
        },
{
    lemma_tail_of_shifted_provider(provider, rest, 0, depth - 1, format, rounding);
    assert(rest.coefficient_at(0) == provider.coefficient_at(1));
    assert(backward_tail(provider, 0, depth, format, rounding) == backward_value(rest, depth, format, rounding));
}

/// A fraction of `depth` levels that the backward recurrence evaluates has
/// read every one of its levels.
pub proof fn lemma_backward_reads_every_level<P: CoefficientProvider>(
    provider: &P,
    depth: int,
    format: Format,
    rounding: RoundingMode,
)
    requires
        depth >= 1,
        backward_value(provider, depth, format, rounding) is Ok,
    ensures
        forall|i: int| 0 <= i < depth ==> #[trigger] provider.coefficient_at(i) is Ok,
{
    lemma_tail_reads_its_levels(provider, 0, depth - 1, format, rounding);
}

/// A Lentz state after `steps` levels has read each of them.
proof fn lemma_lentz_state_reads_its_levels<P: CoefficientProvider>(
    provider: &P,
    steps: int,
    one: Fixed,
    format: Format,
    rounding: RoundingMode,
)
    requires
        lentz_state(provider, steps, one, format, rounding) is Ok,
    ensures
        forall|i: int| 0 <= i < steps ==> #[trigger] provider.coefficient_at(i) is Ok,
    decreases steps,
{
    if steps > 0 {
        lemma_lentz_state_reads_its_levels(provider, steps - 1, one, format, rounding);
    }
}

/// A fraction of `depth` levels that the Lentz method evaluates has read
/// every one of its levels.
pub proof fn lemma_lentz_reads_every_level<P: CoefficientProvider>(
    provider: &P,
    depth: int,
    format: Format,
    rounding: RoundingMode,
)
    requires
        lentz_value(provider, depth, format, rounding) is Ok,
    ensures
        forall|i: int| 0 <= i < depth ==> #[trigger] provider.coefficient_at(i) is Ok,
{
    let one = encoded_integer(1, format)->Ok_0;
    lemma_lentz_state_reads_its_levels(provider, depth, one, format, rounding);
}

/// The Lentz method starts from `f₀ = C₀ = tiny(b₀)` and `D₀ = 0`, and each
/// further level `(aₙ, bₙ)` multiplies the current value by `Cₙ·Dₙ`:
///
/// ```text
/// Dₙ = 1 / tiny(bₙ + aₙ·Dₙ₋₁)
/// Cₙ = tiny(bₙ + aₙ / tiny(Cₙ₋₁))
/// fₙ = fₙ₋₁ · (Cₙ·Dₙ)
/// ```
///
/// so the value with `depth + 1` levels is the one with `depth` levels
/// corrected by level `depth`, whatever the depth.
pub proof fn lemma_lentz_adds_one_level<P: CoefficientProvider>(
    provider: &P,
    depth: int,
    format: Format,
    rounding: RoundingMode,
)
    requires
        depth >= 0,
    ensures
        lentz_value(provider, 0, format, rounding) == match encoded_integer(1, format) {
            Err(error) => Err(error),
            Ok(one) => Ok(nonzero_or_tiny(provider.initial_term())),
        },
        encoded_integer(1, format) matches Ok(one) ==> lentz_value(provider, depth + 1, format, rounding) == match lentz_state(provider, depth, one, format, rounding) {
            Err(error) => Err(error),
            Ok(state) => match provider.coefficient_at(depth) {
                Err(error) => Err(error),
                Ok(level) => {
                    let (f, c, d) = state;
                    let a = level@.0;
                    let b = level@.1;
                    match scaled_product(a, d, format, rounding) {
                        Err(error) => Err(error),
                        Ok(a_times_d) => match sum_or_overflow(b, a_times_d) {
                            Err(error) => Err(error),
                            Ok(d_sum) => match scaled_quotient(a, nonzero_or_tiny(c), format, rounding) {
                                Err(error) => Err(error),
                                Ok(a_over_c) => match sum_or_overflow(b, a_over_c) {
                                    Err(error) => Err(error),
                                    Ok(c_sum) => match scaled_quotient(one, nonzero_or_tiny(d_sum), format, rounding) {
                                        Err(error) => Err(error),
                                        Ok(next_d) => match scaled_product(nonzero_or_tiny(c_sum), next_d, format, rounding) {
                                            Err(error) => Err(error),
                                            Ok(delta) => scaled_product(f, delta, format, rounding),
                                        },
                                    },
                                },
                            },
                        },
                    }
                },
            },
        },
        encoded_integer(1, format) matches Ok(one) ==> lentz_value(provider, depth, format, rounding) == match lentz_state(provider, depth, one, format, rounding) {
            Err(error) => Err(error),
            Ok(state) => Ok(state.0),
        },
{
}

/// Evaluates a finite generalized continued fraction.
///
/// The evaluated structure is:
///
/// ```text
/// b₀ + a₁ / (b₁ + a₂ / (b₂ + ... + aₙ / bₙ))
/// ```
///
/// Provider index zero represents `(a₁, b₁)`.
#[derive(Clone, Copy, Debug)]
pub struct Evaluator<'a, P> {
    provider: &'a P,
    fraction: ContinuedFraction,
    format: Format,
    rounding: RoundingMode,
    algorithm: EvaluationAlgorithm,
}

impl<'a, P> View for Evaluator<'a, P> {
    type V = (ContinuedFraction, Format, RoundingMode, EvaluationAlgorithm);

    /// The fraction model, the arithmetic format, the rounding and the algorithm.
    closed spec fn view(&self) -> (ContinuedFraction, Format, RoundingMode, EvaluationAlgorithm) {
        (self.fraction, self.format, self.rounding, self.algorithm)
    }
}

impl<'a, P> Evaluator<'a, P> {
    /// The coefficient provider.
    pub closed spec fn provider_of(&self) -> &'a P {
        self.provider
    }
}

impl<'a, P> Evaluator<'a, P> where P: CoefficientProvider {
    /// Creates an evaluator using integer arithmetic and backward
    /// evaluation.
    pub fn new(provider: &'a P, depth: usize) -> (evaluator: Self)
        ensures
            evaluator.provider_of() == provider,
            evaluator@ == (
                ContinuedFraction::spec_new(depth),
                Format::spec_new(0),
                RoundingMode::TowardZero,
                EvaluationAlgorithm::Backward,
            ),
    {
        Self {
            provider,
            fraction: ContinuedFraction::new(depth),
            format: Format::new(0),
            rounding: RoundingMode::TowardZero,
            algorithm: EvaluationAlgorithm::Backward,
        }
    }

    /// Creates an evaluator using explicit fixed-point arithmetic.
    pub fn with_arithmetic(provider: &'a P, depth: usize, format: Format, rounding: RoundingMode) -> (evaluator: Self)
        ensures
            evaluator.provider_of() == provider,
            evaluator@ == (ContinuedFraction::spec_new(depth), format, rounding, EvaluationAlgorithm::Backward),
    {
        Self {
            provider,
            fraction: ContinuedFraction::new(depth),
            format,
            rounding,
            algorithm: EvaluationAlgorithm::Backward,
        }
    }

    /// Creates a fully configured evaluator.
    pub fn configured(
        provider: &'a P,
        fraction: ContinuedFraction,
        format: Format,
        rounding: RoundingMode,
        algorithm: EvaluationAlgorithm,
    ) -> (evaluator: Self)
        ensures
            evaluator.provider_of() == provider,
            evaluator@ == (fraction, format, rounding, algorithm),
    {
        Self { provider, fraction, format, rounding, algorithm }
    }

    pub fn provider(&self) -> (provider: &'a P)
        ensures
            provider == self.provider_of(),
    {
        self.provider
    }

    pub fn fraction(&self) -> (fraction: ContinuedFraction)
        ensures
            fraction == self@.0,
    {
        self.fraction
    }

    pub fn depth(&self) -> (depth: usize)
        ensures
            depth == self@.0@,
    {
        self.fraction.depth()
    }

    pub fn format(&self) -> (format: Format)
        ensures
            format == self@.1,
    {
        self.format
    }

    pub fn rounding(&self) -> (rounding: RoundingMode)
        ensures
            rounding == self@.2,
    {
        self.rounding
    }

    pub fn algorithm(&self) -> (algorithm: EvaluationAlgorithm)
        ensures
            algorithm == self@.3,
    {
        self.algorithm
    }

    pub fn with_fraction(self, fraction: ContinuedFraction) -> (evaluator: Self)
        ensures
            evaluator.provider_of() == self.provider_of(),
            evaluator@ == (fraction, self@.1, self@.2, self@.3),
    {
        let mut evaluator = self;
        evaluator.fraction = fraction;
        evaluator
    }

    pub fn with_depth(self, depth: usize) -> (evaluator: Self)
        ensures
            evaluator.provider_of() == self.provider_of(),
            evaluator@ == (ContinuedFraction::spec_new(depth), self@.1, self@.2, self@.3),
    {
        let mut evaluator = self;
        evaluator.fraction = evaluator.fraction.with_depth(depth);
        evaluator
    }

    pub fn with_format(self, format: Format) -> (evaluator: Self)
        ensures
            evaluator.provider_of() == self.provider_of(),
            evaluator@ == (self@.0, format, self@.2, self@.3),
    {
        let mut evaluator = self;
        evaluator.format = format;
        evaluator
    }

    pub fn with_rounding(self, rounding: RoundingMode) -> (evaluator: Self)
        ensures
            evaluator.provider_of() == self.provider_of(),
            evaluator@ == (self@.0, self@.1, rounding, self@.3),
    {
        let mut evaluator = self;
        evaluator.rounding = rounding;
        evaluator
    }

    pub fn with_algorithm(self, algorithm: EvaluationAlgorithm) -> (evaluator: Self)
        ensures
            evaluator.provider_of() == self.provider_of(),
            evaluator@ == (self@.0, self@.1, self@.2, algorithm),
    {
        let mut evaluator = self;
        evaluator.algorithm = algorithm;
        evaluator
    }

    pub fn set_fraction(&mut self, fraction: ContinuedFraction)
        ensures
            final(self).provider_of() == old(self).provider_of(),
            final(self)@ == (fraction, old(self)@.1, old(self)@.2, old(self)@.3),
    {
        self.fraction = fraction;
    }

    pub fn set_depth(&mut self, depth: usize)
        ensures
            final(self).provider_of() == old(self).provider_of(),
            final(self)@ == (ContinuedFraction::spec_new(depth), old(self)@.1, old(self)@.2, old(self)@.3),
    {
        self.fraction = self.fraction.with_depth(depth);
    }

    pub fn set_format(&mut self, format: Format)
        ensures
            final(self).provider_of() == old(self).provider_of(),
            final(self)@ == (old(self)@.0, format, old(self)@.2, old(self)@.3),
    {
        self.format = format;
    }

    pub fn set_rounding(&mut self, rounding: RoundingMode)
        ensures
            final(self).provider_of() == old(self).provider_of(),
            final(self)@ == (old(self)@.0, old(self)@.1, rounding, old(self)@.3),
    {
        self.rounding = rounding;
    }

    pub fn set_algorithm(&mut self, algorithm: EvaluationAlgorithm)
        ensures
            final(self).provider_of() == old(self).provider_of(),
            final(self)@ == (old(self)@.0, old(self)@.1, old(self)@.2, algorithm),
    {
        self.algorithm = algorithm;
    }

    fn coefficient(&self, index: usize) -> (r: Result<Coefficient, Error>)
        ensures
            r == self.provider.coefficient_at(index as int),
    {
        self.provider.coefficient(index)
    }

    fn divide(&self, numerator: Fixed, denominator: Fixed) -> (r: Result<Fixed, Error>)
        ensures
            r == scaled_quotient(numerator, denominator, self.format, self.rounding),
    {
        numerator.checked_div_scaled(denominator, self.format, self.rounding)
    }

    fn multiply(&self, left: Fixed, right: Fixed) -> (r: Result<Fixed, Error>)
        ensures
            r == scaled_product(left, right, self.format, self.rounding),
    {
        left.checked_mul_scaled(right, self.format, self.rounding)
    }

    fn encoded_one(&self) -> (r: Result<Fixed, Error>)
        ensures
            r == encoded_integer(1, self.format),
    {
        Fixed::encode_integer(1, self.format)
    }

    fn tiny(&self) -> (r: Fixed)
        ensures
            r@ == 1,
    {
        Fixed::from_raw(1)
    }

    fn protect_zero(&self, value: Fixed) -> (r: Fixed)
        ensures
            r == nonzero_or_tiny(value),
    {
        if value.is_zero() {
            self.tiny()
        } else {
            value
        }
    }

    fn evaluate_backward(&self) -> (r: Result<Fixed, Error>)
        requires
            self.fraction@ >= 1,
        ensures
            r == backward_value(self.provider, self.fraction@ as int, self.format, self.rounding),
    {
        let ghost provider = self.provider;
        let ghost format = self.format;
        let ghost rounding = self.rounding;
        let last_index = self.depth() - 1;
        proof {
            if backward_tail(provider, last_index as int, last_index as int, format, rounding) is Err {
                lemma_backward_failure_rises(provider, last_index as int, 0, last_index as int, format, rounding);
            }
        }
        let last = match self.coefficient(last_index) {
            Ok(last) => last,
            Err(error) => return Err(error),
        };
        if last.denominator().is_zero() {
            return Err(Error::DivisionByZero);
        }
        let mut tail = last.denominator();
        let mut level = last_index;
        while level > 0
            invariant
                level <= last_index,
                last_index == self.fraction@ - 1,
                backward_tail(provider, level as int, last_index as int, format, rounding) == Ok::<Fixed, Error>(tail),
                provider == self.provider,
                format == self.format,
                rounding == self.rounding,
            decreases level,
        {
            let index = level - 1;
            let current = match self.coefficient(index) {
                Ok(current) => current,
                Err(error) => {
                    proof {
                        lemma_backward_failure_rises(provider, index as int, 0, last_index as int, format, rounding);
                    }
                    return Err(error);
                },
            };
            let next = match self.coefficient(index + 1) {
                Ok(next) => next,
                Err(error) => {
                    proof {
                        lemma_backward_failure_rises(provider, index as int, 0, last_index as int, format, rounding);
                    }
                    return Err(error);
                },
            };
            let quotient = match self.divide(next.numerator(), tail) {
                Ok(quotient) => quotient,
                Err(error) => {
                    proof {
                        lemma_backward_failure_rises(provider, index as int, 0, last_index as int, format, rounding);
                    }
                    return Err(error);
                },
            };
            tail = match current.denominator().checked_add(quotient) {
                Some(sum) => sum,
                None => {
                    proof {
                        lemma_backward_failure_rises(provider, index as int, 0, last_index as int, format, rounding);
                    }
                    return Err(Error::Overflow);
                },
            };
            level = index;
        }
        let first = match self.coefficient(0) {
            Ok(first) => first,
            Err(error) => return Err(error),
        };
        let quotient = match self.divide(first.numerator(), tail) {
            Ok(quotient) => quotient,
            Err(error) => return Err(error),
        };
        match self.provider.initial().checked_add(quotient) {
            Some(value) => Ok(value),
            None => Err(Error::Overflow),
        }
    }

    fn evaluate_lentz(&self) -> (r: Result<Fixed, Error>)
        ensures
            r == lentz_value(self.provider, self.fraction@ as int, self.format, self.rounding),
    {
        let ghost provider = self.provider;
        let ghost format = self.format;
        let ghost rounding = self.rounding;
        let one = match self.encoded_one() {
            Ok(one) => one,
            Err(error) => return Err(error),
        };
        let tiny = self.tiny();
        let initial = self.provider.initial();
        let mut result = if initial.is_zero() {
            tiny
        } else {
            initial
        };
        let mut c = result;
        let mut d = Fixed::from_raw(0);
        let depth = self.depth();
        let mut index: usize = 0;
        while index < depth
            invariant
                index <= depth,
                depth == self.fraction@,
                lentz_state(provider, index as int, one, format, rounding) == Ok::<(Fixed, Fixed, Fixed), Error>((result, c, d)),
                encoded_integer(1, format) == Ok::<Fixed, Error>(one),
                provider == self.provider,
                format == self.format,
                rounding == self.rounding,
            decreases depth - index,
        {
            let ghost failed = lentz_state(provider, index + 1, one, format, rounding);
            let coefficient = match self.coefficient(index) {
                Ok(coefficient) => coefficient,
                Err(error) => {
                    proof {
                        lemma_lentz_failure_persists(provider, index + 1, depth as int, one, format, rounding);
                    }
                    return Err(error);
                },
            };
            let numerator = coefficient.numerator();
            let denominator = coefficient.denominator();
            let numerator_times_d = match self.multiply(numerator, d) {
                Ok(value) => value,
                Err(error) => {
                    proof {
                        lemma_lentz_failure_persists(provider, index + 1, depth as int, one, format, rounding);
                    }
                    return Err(error);
                },
            };
            let d_sum = match denominator.checked_add(numerator_times_d) {
                Some(value) => value,
                None => {
                    proof {
                        lemma_lentz_failure_persists(provider, index + 1, depth as int, one, format, rounding);
                    }
                    return Err(Error::Overflow);
                },
            };
            let protected_d = self.protect_zero(d_sum);
            let numerator_over_c = match self.divide(numerator, self.protect_zero(c)) {
                Ok(value) => value,
                Err(error) => {
                    proof {
                        lemma_lentz_failure_persists(provider, index + 1, depth as int, one, format, rounding);
                    }
                    return Err(error);
                },
            };
            let c_sum = match denominator.checked_add(numerator_over_c) {
                Some(value) => value,
                None => {
                    proof {
                        lemma_lentz_failure_persists(provider, index + 1, depth as int, one, format, rounding);
                    }
                    return Err(Error::Overflow);
                },
            };
            let next_c = self.protect_zero(c_sum);
            let next_d = match self.divide(one, protected_d) {
                Ok(value) => value,
                Err(error) => {
                    proof {
                        lemma_lentz_failure_persists(provider, index + 1, depth as int, one, format, rounding);
                    }
                    return Err(error);
                },
            };
            let delta = match self.multiply(next_c, next_d) {
                Ok(value) => value,
                Err(error) => {
                    proof {
                        lemma_lentz_failure_persists(provider, index + 1, depth as int, one, format, rounding);
                    }
                    return Err(error);
                },
            };
            result = match self.multiply(result, delta) {
                Ok(value) => value,
                Err(error) => {
                    proof {
                        lemma_lentz_failure_persists(provider, index + 1, depth as int, one, format, rounding);
                    }
                    return Err(error);
                },
            };
            c = next_c;
            d = next_d;
            index = index + 1;
        }
        Ok(result)
    }
}

impl<'a, P> Evaluate<Result<Fixed, Error>> for Evaluator<'a, P> where P: CoefficientProvider {
    /// The fraction evaluated with the configured depth, arithmetic and
    /// algorithm; `InvalidDepth` when the depth is zero.
    open spec fn evaluation(&self) -> Result<Fixed, Error> {
        continued_fraction_value(self.provider_of(), self@.0@ as int, self@.1, self@.2, self@.3)
    }

    fn evaluate(&self) -> (r: Result<Fixed, Error>) {
        match self.fraction.validate() {
            Ok(()) => {},
            Err(error) => return Err(error),
        }
        match self.algorithm {
            EvaluationAlgorithm::Backward => self.evaluate_backward(),
            EvaluationAlgorithm::Lentz => self.evaluate_lentz(),
        }
    }
}

} // verus!
