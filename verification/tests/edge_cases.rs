//! Boundary inputs and error cases.

use fixed_math::cf::{
    Atanh, Coefficient, CoefficientProvider, ContinuedFraction, EvaluationAlgorithm, Evaluator,
    Lambert,
};
use fixed_math::error::{Error, Result};
use fixed_math::function::{EvaluationConfig, Exp, Ln};
use fixed_math::number::constant::{
    ln_2, raw_five, raw_four, raw_negative_one, raw_one, raw_ten, raw_three, raw_two, zero,
};
use fixed_math::number::{Fixed, Format, RoundingMode};
use fixed_math::traits::Evaluate;

fn raw(value: i64) -> Fixed {
    Fixed::from_raw(value)
}

#[test]
fn nearest_rounding_goes_away_from_zero_for_every_sign() {
    assert_eq!(RoundingMode::Nearest.divide(1, -2), Some(-1));
    assert_eq!(RoundingMode::Nearest.divide(-1, -2), Some(1));
    assert_eq!(RoundingMode::Nearest.divide(-2, -3), Some(1));
    assert_eq!(RoundingMode::Nearest.divide(2, -3), Some(-1));
    assert_eq!(RoundingMode::Nearest.divide(-1, 3), Some(0));
}

#[test]
fn directed_rounding_with_negative_divisors() {
    assert_eq!(RoundingMode::Floor.divide(-7, -3), Some(2));
    assert_eq!(RoundingMode::Floor.divide(7, -3), Some(-3));
    assert_eq!(RoundingMode::Ceil.divide(7, -3), Some(-2));
    assert_eq!(RoundingMode::Ceil.divide(-7, -3), Some(3));
    assert_eq!(RoundingMode::TowardZero.divide(7, -3), Some(-2));
}

#[test]
fn division_of_the_minimum_by_minus_one_does_not_fit() {
    for mode in [RoundingMode::Floor, RoundingMode::Ceil, RoundingMode::TowardZero, RoundingMode::Nearest] {
        assert_eq!(mode.divide(i64::MIN, -1), None);
        assert_eq!(mode.divide(i64::MIN, 1), Some(i64::MIN));
    }
}

#[test]
fn format_boundaries() {
    assert_eq!(Format::new(63).scale(), i64::MIN);
    assert_eq!(Format::new(62).scale(), 1i64 << 62);
    assert_eq!(Format::new(63).encode_integer(0), Some(0));
    assert_eq!(Fixed::encode_integer(1, Format::new(63)), Err(Error::Overflow));
    assert_eq!(Fixed::encode_integer(-1, Format::new(63)), Ok(raw(i64::MIN)));
    assert_eq!(Fixed::encode_integer(1, Format::new(62)), Ok(raw(1 << 62)));
    assert_eq!(Fixed::encode_integer(2, Format::new(62)), Err(Error::Overflow));
    assert_eq!(Format::new(62).fractional_mask(), (1i64 << 62) - 1);
    assert_eq!(Format::default().frac_bits(), 0);
    assert_eq!(Format::new(4).decode_integer(-1), -1);
    assert_eq!(Format::new(4).decode_integer(-17), -2);
    assert_eq!(Format::new(4).decode_integer(17), 1);
}

#[test]
fn decoding_rounds_as_requested() {
    let q4 = Format::new(4);
    let value = raw(-24);
    assert_eq!(value.decode_integer(q4, RoundingMode::Floor), Ok(-2));
    assert_eq!(value.decode_integer(q4, RoundingMode::Ceil), Ok(-1));
    assert_eq!(value.decode_integer(q4, RoundingMode::TowardZero), Ok(-1));
    assert_eq!(value.decode_integer(q4, RoundingMode::Nearest), Ok(-2));
}

#[test]
fn scaled_arithmetic_reports_overflow() {
    assert_eq!(Fixed::encode_integer(i64::MAX, Format::new(1)), Err(Error::Overflow));
    assert_eq!(
        raw(i64::MAX).checked_mul_scaled(raw(4), Format::new(0), RoundingMode::Nearest),
        Err(Error::Overflow),
    );
    assert_eq!(
        raw(i64::MAX).checked_div_scaled(raw(1), Format::new(1), RoundingMode::Nearest),
        Err(Error::Overflow),
    );
    assert_eq!(raw(i64::MAX).rescale(Format::new(0), Format::new(1), RoundingMode::Nearest), Err(Error::Overflow));
}

#[test]
fn scaled_division_rounds_as_requested() {
    let q4 = Format::new(4);
    let numerator = raw(-16);
    let denominator = raw(96);
    assert_eq!(numerator.checked_div_scaled(denominator, q4, RoundingMode::Nearest), Ok(raw(-3)));
    assert_eq!(numerator.checked_div_scaled(denominator, q4, RoundingMode::TowardZero), Ok(raw(-2)));
    assert_eq!(numerator.checked_div_scaled(denominator, q4, RoundingMode::Floor), Ok(raw(-3)));
    assert_eq!(numerator.checked_div_scaled(denominator, q4, RoundingMode::Ceil), Ok(raw(-2)));
}

#[test]
fn rescaling_down_rounds_as_requested() {
    let q4 = Format::new(4);
    let q8 = Format::new(8);
    assert_eq!(raw(392).rescale(q8, q4, RoundingMode::Nearest), Ok(raw(25)));
    assert_eq!(raw(392).rescale(q8, q4, RoundingMode::Floor), Ok(raw(24)));
    assert_eq!(raw(392).rescale(q8, q4, RoundingMode::TowardZero), Ok(raw(24)));
    assert_eq!(raw(392).rescale(q8, q4, RoundingMode::Ceil), Ok(raw(25)));
    assert_eq!(raw(-392).rescale(q8, q4, RoundingMode::Nearest), Ok(raw(-25)));
    assert_eq!(raw(392).rescale(q8, q8, RoundingMode::Floor), Ok(raw(392)));
}

#[test]
fn checked_raw_arithmetic() {
    assert_eq!(raw(i64::MAX).checked_add(raw(1)), None);
    assert_eq!(raw(2).checked_add(raw(3)), Some(raw(5)));
    assert_eq!(raw(i64::MIN).checked_sub(raw(1)), None);
    assert_eq!(raw(2).checked_sub(raw(3)), Some(raw(-1)));
    assert_eq!(raw(i64::MAX).checked_mul(raw(2)), None);
    assert_eq!(raw(-4).checked_mul(raw(3)), Some(raw(-12)));
    assert_eq!(raw(5).checked_div(raw(0)), None);
    assert_eq!(raw(i64::MIN).checked_div(raw(-1)), None);
    assert_eq!(raw(-7).checked_div(raw(2)), Some(raw(-3)));
    assert_eq!(raw(i64::MIN).checked_neg(), None);
    assert_eq!(raw(5).checked_neg(), Some(raw(-5)));
    assert_eq!(raw(i64::MIN).checked_abs(), None);
    assert_eq!(raw(-5).checked_abs(), Some(raw(5)));
}

#[test]
fn saturating_and_wrapping_arithmetic() {
    assert_eq!(raw(i64::MAX).saturating_add(raw(1)), raw(i64::MAX));
    assert_eq!(raw(i64::MIN).saturating_sub(raw(1)), raw(i64::MIN));
    assert_eq!(raw(i64::MAX).saturating_mul(raw(2)), raw(i64::MAX));
    assert_eq!(raw(i64::MIN).saturating_mul(raw(2)), raw(i64::MIN));
    assert_eq!(raw(i64::MIN).saturating_neg(), raw(i64::MAX));
    assert_eq!(raw(i64::MIN).saturating_abs(), raw(i64::MAX));
    assert_eq!(raw(-3).abs(), raw(3));
    assert_eq!(raw(i64::MAX).wrapping_add(raw(1)), raw(i64::MIN));
    assert_eq!(raw(i64::MIN).wrapping_sub(raw(1)), raw(i64::MAX));
    assert_eq!(raw(i64::MAX).wrapping_mul(raw(2)), raw(-2));
    assert_eq!(raw(i64::MIN).wrapping_neg(), raw(i64::MIN));
    assert_eq!(raw(7).wrapping_neg(), raw(-7));
}

#[test]
fn sign_and_ordering_helpers() {
    assert_eq!(raw(5).signum(), raw(1));
    assert_eq!(raw(-5).signum(), raw(-1));
    assert_eq!(raw(0).signum(), raw(0));
    assert_eq!(raw(3).min(raw(-2)), raw(-2));
    assert_eq!(raw(3).max(raw(-2)), raw(3));
    assert!(raw(0).is_zero());
    assert!(raw(2).is_positive());
    assert!(raw(-2).is_negative());
    assert_eq!(Fixed::new(9).into_raw(), 9);
    assert_eq!(Fixed::default(), raw(0));
    assert_eq!(zero(), raw(0));
}

#[test]
fn operators_and_conversions() {
    assert_eq!(raw(7) + raw(5), raw(12));
    assert_eq!(raw(7) - raw(5), raw(2));
    assert_eq!(raw(7) * raw(-5), raw(-35));
    assert_eq!(raw(7) / raw(-2), raw(-3));
    assert_eq!(-raw(7), raw(-7));
    assert_eq!(Fixed::from(9i64), raw(9));
    assert_eq!(Fixed::from(-9i32), raw(-9));
    assert_eq!(Fixed::from(300i16), raw(300));
    assert_eq!(Fixed::from(-8i8), raw(-8));
    assert_eq!(i64::from(raw(42)), 42);
}

#[test]
fn every_error_has_a_message() {
    assert_eq!(Error::Overflow.message(), "numeric overflow");
    assert_eq!(Error::Underflow.message(), "numeric underflow");
    assert_eq!(Error::DivisionByZero.message(), "division by zero");
    assert_eq!(Error::Domain.message(), "input outside function domain");
    assert_eq!(Error::InvalidFormat.message(), "invalid fixed-point format");
    assert_eq!(Error::InvalidDepth.message(), "invalid evaluation depth");
    assert_eq!(Error::NoConvergence.message(), "evaluation did not converge");
    assert_eq!(Error::NotImplemented.message(), "operation not implemented");
}

#[test]
fn ln_two_in_other_formats() {
    assert_eq!(ln_2(Format::new(32), RoundingMode::Nearest), Ok(raw(2_977_044_471)));
    assert_eq!(ln_2(Format::new(40), RoundingMode::Nearest), Ok(raw(2_977_044_471 * 256)));
    assert_eq!(ln_2(Format::new(63), RoundingMode::Nearest), Ok(raw(2_977_044_471 << 31)));
}

#[test]
fn coefficient_providers_report_index_overflow() {
    let lambert = Lambert::new(raw(2)).unwrap();
    assert_eq!(lambert.coefficient(usize::MAX), Err(Error::Overflow));
    assert_eq!(lambert.coefficient(1 << 62), Err(Error::Overflow));
    let atanh = Atanh::new(raw(0)).unwrap();
    assert_eq!(atanh.coefficient(1 << 32), Err(Error::Overflow));
    assert_eq!(atanh.format(), Format::new(0));
    assert_eq!(atanh.rounding(), RoundingMode::TowardZero);
}

#[test]
fn atanh_rejects_its_boundaries() {
    assert_eq!(Atanh::with_arithmetic(raw(i64::MIN), Format::new(16), RoundingMode::Nearest), Err(Error::Overflow));
    assert_eq!(Atanh::new(raw(1)), Err(Error::Domain));
    assert_eq!(Atanh::new(raw(-1)), Err(Error::Domain));
    assert!(Atanh::with_arithmetic(raw(65_535), Format::new(16), RoundingMode::Nearest).is_ok());
}

struct Listed {
    initial: Fixed,
    coefficients: Vec<Coefficient>,
}

impl CoefficientProvider for Listed {
    fn initial(&self) -> Fixed {
        self.initial
    }

    fn coefficient(&self, index: usize) -> Result<Coefficient> {
        self.coefficients.get(index).copied().ok_or(Error::InvalidDepth)
    }
}

#[test]
fn lentz_reports_missing_coefficient() {
    let provider = Listed { initial: raw(0), coefficients: vec![Coefficient::new(raw(1), raw(1))] };
    let evaluator = Evaluator::new(&provider, 2).with_algorithm(EvaluationAlgorithm::Lentz);
    assert_eq!(evaluator.evaluate(), Err(Error::InvalidDepth));
}

#[test]
fn configured_evaluator_exposes_its_parts() {
    let provider = Listed { initial: raw(3), coefficients: vec![Coefficient::new(raw(4), raw(2))] };
    let evaluator = Evaluator::configured(
        &provider,
        ContinuedFraction::new(1),
        Format::new(0),
        RoundingMode::Floor,
        EvaluationAlgorithm::Backward,
    );
    assert_eq!(evaluator.provider().initial(), raw(3));
    assert_eq!(evaluator.fraction(), ContinuedFraction::new(1));
    // 3 + 4 / 2
    assert_eq!(evaluator.evaluate(), Ok(raw(5)));
}

#[test]
fn backward_reports_overflowing_sum() {
    let provider = Listed { initial: raw(i64::MAX), coefficients: vec![Coefficient::new(raw(1), raw(1))] };
    assert_eq!(Evaluator::new(&provider, 1).evaluate(), Err(Error::Overflow));
}

#[test]
fn exponential_overflows_instead_of_wrapping() {
    let config = EvaluationConfig::binary(16, 24);
    assert_eq!(Evaluate::evaluate(&Exp::with_config(raw(40 * 65_536), config)), Err(Error::Overflow));
}

#[test]
fn exponential_of_a_large_negative_input_is_zero() {
    let config = EvaluationConfig::binary(16, 24);
    assert_eq!(Evaluate::evaluate(&Exp::with_config(raw(-50 * 65_536), config)), Ok(raw(0)));
}

#[test]
fn integer_configuration_has_no_room_for_ln_two() {
    let config = EvaluationConfig::integer(8);
    assert_eq!(Evaluate::evaluate(&Exp::with_config(raw(0), config)), Ok(raw(1)));
    assert_eq!(Evaluate::evaluate(&Exp::with_config(raw(1), config)), Err(Error::DivisionByZero));
}

#[test]
fn logarithm_needs_room_for_two() {
    assert_eq!(
        Evaluate::evaluate(&Ln::with_config(raw(5), EvaluationConfig::binary(62, 8))),
        Err(Error::Overflow),
    );
    assert_eq!(
        Evaluate::evaluate(&Ln::with_config(raw(1), EvaluationConfig::binary(63, 8))),
        Err(Error::Overflow),
    );
}

#[test]
fn defaults() {
    assert_eq!(Exp::default().input(), raw(0));
    assert_eq!(Exp::default().config(), EvaluationConfig::default());
    assert_eq!(Ln::default().input(), raw(0));
    assert_eq!(ContinuedFraction::default(), ContinuedFraction::new(0));
    assert_eq!(Coefficient::default(), Coefficient::new(raw(0), raw(0)));
    assert_eq!(Exp::new(raw(0)).with_evaluation_config(EvaluationConfig::integer(3)).config(), EvaluationConfig::integer(3));
    assert_eq!(Ln::new(raw(0)).with_evaluation_config(EvaluationConfig::integer(3)).config(), EvaluationConfig::integer(3));
}

#[test]
fn named_values() {
    assert_eq!(Fixed::zero(), raw(0));
    assert_eq!(Fixed::one(), raw(1));
    assert_eq!(Fixed::min_value(), raw(i64::MIN));
    assert_eq!(Fixed::max_value(), raw(i64::MAX));
    assert_eq!(Format::integer(), Format::new(0));
    assert_eq!(Format::integer().scale(), 1);
    assert_eq!(zero(), raw(0));
    assert_eq!(raw_negative_one(), raw(-1));
    assert_eq!(raw_one(), raw(1));
    assert_eq!(raw_two(), raw(2));
    assert_eq!(raw_three(), raw(3));
    assert_eq!(raw_four(), raw(4));
    assert_eq!(raw_five(), raw(5));
    assert_eq!(raw_ten(), raw(10));
}
