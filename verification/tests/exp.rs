use fixed_math::cf::EvaluationAlgorithm;
use fixed_math::error::Error;
use fixed_math::function::{EvaluationConfig, Exp};
use fixed_math::number::constant;
use fixed_math::number::{Fixed, Format, RoundingMode};
use fixed_math::traits::{Evaluate, Function};

const SCALE: i64 = 65_536;

fn q16(value: i64) -> Fixed {
    Fixed::from_raw(value * SCALE)
}

fn q16_ratio(numerator: i64, denominator: i64) -> Fixed {
    Fixed::from_raw(numerator * SCALE / denominator)
}

fn assert_close(actual: Fixed, expected: Fixed, tolerance: u64) {
    let difference = actual.raw().abs_diff(expected.raw());

    assert!(
        difference <= tolerance,
        "actual raw {}, expected raw {}, difference {}, tolerance {}",
        actual.raw(),
        expected.raw(),
        difference,
        tolerance,
    );
}

fn assert_close_relative(
    actual: Fixed,
    expected: Fixed,
    absolute_tolerance: u64,
    relative_numerator: u64,
    relative_denominator: u64,
) {
    let difference = actual.raw().abs_diff(expected.raw());

    let magnitude = actual.raw().unsigned_abs().max(expected.raw().unsigned_abs());

    let relative_tolerance = magnitude.saturating_mul(relative_numerator) / relative_denominator;

    let tolerance = absolute_tolerance.max(relative_tolerance);

    assert!(
        difference <= tolerance,
        "actual raw {}, expected raw {}, difference {}, tolerance {}",
        actual.raw(),
        expected.raw(),
        difference,
        tolerance,
    );
}

fn config(algorithm: EvaluationAlgorithm) -> EvaluationConfig {
    EvaluationConfig::binary(16, 24).with_algorithm(algorithm)
}

fn evaluate_with(input: Fixed, algorithm: EvaluationAlgorithm) -> Fixed {
    Evaluate::evaluate(&Exp::with_config(input, config(algorithm))).unwrap()
}

#[test]
fn exp_constructor_preserves_input_and_configuration() {
    let config = config(EvaluationAlgorithm::Lentz);

    let function = Exp::with_config(q16(2), config);

    assert_eq!(function.input(), q16(2));

    assert_eq!(function.config(), config);
}

#[test]
fn exp_input_builder_does_not_modify_original() {
    let original = Exp::new(q16(1));

    let changed = original.with_input(q16(2));

    assert_eq!(original.input(), q16(1));

    assert_eq!(changed.input(), q16(2));
}

#[test]
fn exp_setters_replace_input_and_configuration() {
    let mut function = Exp::new(q16(1));

    let new_config = config(EvaluationAlgorithm::Lentz);

    function.set_input(q16(2));

    function.set_config(new_config);

    assert_eq!(function.input(), q16(2));

    assert_eq!(function.config(), new_config);
}

#[test]
fn exp_zero_is_one_for_both_algorithms() {
    for algorithm in [EvaluationAlgorithm::Backward, EvaluationAlgorithm::Lentz] {
        assert_eq!(evaluate_with(Fixed::from_raw(0), algorithm), q16(1));
    }
}

#[test]
fn exp_ln_two_is_two_for_both_algorithms() {
    let ln_two = constant::ln_2(Format::new(16), RoundingMode::Nearest).unwrap();

    for algorithm in [EvaluationAlgorithm::Backward, EvaluationAlgorithm::Lentz] {
        assert_close(evaluate_with(ln_two, algorithm), q16(2), 8);
    }
}

#[test]
fn exp_negative_ln_two_is_half_for_both_algorithms() {
    let ln_two = constant::ln_2(Format::new(16), RoundingMode::Nearest).unwrap();

    let negative_ln_two = ln_two.checked_neg().unwrap();

    for algorithm in [EvaluationAlgorithm::Backward, EvaluationAlgorithm::Lentz] {
        assert_close(evaluate_with(negative_ln_two, algorithm), q16_ratio(1, 2), 8);
    }
}

#[test]
fn exp_backward_and_lentz_agree_on_representative_inputs() {
    for input in [
        q16(-4),
        q16(-2),
        q16(-1),
        Fixed::from_raw(0),
        q16_ratio(1, 2),
        q16(1),
        q16(2),
        q16(4),
    ] {
        let backward = evaluate_with(input, EvaluationAlgorithm::Backward);

        let lentz = evaluate_with(input, EvaluationAlgorithm::Lentz);

        assert_close_relative(backward, lentz, 64, 1, 2_000);
    }
}

#[test]
fn exponential_is_strictly_increasing_on_small_integer_range() {
    for algorithm in [EvaluationAlgorithm::Backward, EvaluationAlgorithm::Lentz] {
        let negative_two = evaluate_with(q16(-2), algorithm);

        let negative_one = evaluate_with(q16(-1), algorithm);

        let zero = evaluate_with(Fixed::from_raw(0), algorithm);

        let one = evaluate_with(q16(1), algorithm);

        let two = evaluate_with(q16(2), algorithm);

        assert!(negative_two.raw() < negative_one.raw());

        assert!(negative_one.raw() < zero.raw());

        assert!(zero.raw() < one.raw());

        assert!(one.raw() < two.raw());
    }
}

#[test]
fn exp_x_times_exp_negative_x_is_approximately_one() {
    let format = Format::new(16);

    for algorithm in [EvaluationAlgorithm::Backward, EvaluationAlgorithm::Lentz] {
        for input in [q16_ratio(1, 2), q16(1), q16(2)] {
            let negative = input.checked_neg().unwrap();

            let positive_result = evaluate_with(input, algorithm);

            let negative_result = evaluate_with(negative, algorithm);

            let product = positive_result
                .checked_mul_scaled(negative_result, format, RoundingMode::Nearest)
                .unwrap();

            assert_close(product, q16(1), 192);
        }
    }
}

#[test]
fn exp_evaluate_trait_uses_stored_input() {
    let function = Exp::with_config(q16(1), config(EvaluationAlgorithm::Backward));

    let result = Evaluate::evaluate(&function).unwrap();

    assert!(result.raw() > q16(2).raw());

    assert!(result.raw() < q16(3).raw());
}

#[test]
fn exp_function_evaluate_uses_supplied_input() {
    let function = Exp::with_config(q16(99), config(EvaluationAlgorithm::Backward));

    let result = Function::evaluate(&function, Fixed::from_raw(0)).unwrap();

    assert_eq!(result, q16(1));
}

#[test]
fn exp_function_eval_matches_function_evaluate() {
    let function = Exp::with_config(Fixed::from_raw(0), config(EvaluationAlgorithm::Lentz));

    let input = q16(1);

    let evaluate_result = Function::evaluate(&function, input).unwrap();

    let eval_result = Function::eval(&function, input).unwrap();

    assert_eq!(eval_result, evaluate_result);
}

#[test]
fn function_trait_preserves_algorithm_selection() {
    let backward_function = Exp::with_config(Fixed::from_raw(0), config(EvaluationAlgorithm::Backward));

    let lentz_function = Exp::with_config(Fixed::from_raw(0), config(EvaluationAlgorithm::Lentz));

    assert_eq!(backward_function.config().algorithm(), EvaluationAlgorithm::Backward);

    assert_eq!(lentz_function.config().algorithm(), EvaluationAlgorithm::Lentz);

    let input = q16(1);

    let backward = Function::eval(&backward_function, input).unwrap();

    let lentz = Function::eval(&lentz_function, input).unwrap();

    assert_close(backward, lentz, 128);
}

#[test]
fn exp_rejects_zero_depth_for_stored_input_evaluation() {
    let config = EvaluationConfig::binary(16, 0);

    assert_eq!(Evaluate::evaluate(&Exp::with_config(q16(1), config)), Err(Error::InvalidDepth));
}

#[test]
fn exp_rejects_zero_depth_for_function_trait_evaluation() {
    let function = Exp::with_config(Fixed::from_raw(0), EvaluationConfig::binary(16, 0));

    assert_eq!(Function::eval(&function, q16(1)), Err(Error::InvalidDepth));
}
