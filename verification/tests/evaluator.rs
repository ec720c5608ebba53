use fixed_math::cf::{
    Coefficient, CoefficientProvider, ContinuedFraction, EvaluationAlgorithm, Evaluator,
};
use fixed_math::error::{Error, Result};
use fixed_math::number::{Fixed, Format, RoundingMode};
use fixed_math::traits::Evaluate;

struct TestProvider {
    initial: Fixed,
    coefficients: Vec<Coefficient>,
}

impl CoefficientProvider for TestProvider {
    fn initial(&self) -> Fixed {
        self.initial
    }

    fn coefficient(&self, index: usize) -> Result<Coefficient> {
        self.coefficients.get(index).copied().ok_or(Error::InvalidDepth)
    }
}

fn q16(value: i64) -> Fixed {
    Fixed::from_raw(value * 65_536)
}

fn assert_close(actual: Fixed, expected: Fixed, tolerance: u64) {
    let difference = actual.into_raw().abs_diff(expected.into_raw());

    assert!(
        difference <= tolerance,
        "actual {}, expected {}, tolerance {}",
        actual.into_raw(),
        expected.into_raw(),
        tolerance,
    );
}

#[test]
fn backward_evaluates_integer_fraction() {
    let provider = TestProvider {
        initial: Fixed::from_raw(1),
        coefficients: vec![
            Coefficient::new(Fixed::from_raw(6), Fixed::from_raw(2)),
            Coefficient::new(Fixed::from_raw(4), Fixed::from_raw(2)),
        ],
    };

    let evaluator = Evaluator::new(&provider, 2);

    assert_eq!(evaluator.evaluate(), Ok(Fixed::from_raw(2)));
}

#[test]
fn backward_evaluates_scaled_fraction() {
    let format = Format::new(16);

    let provider = TestProvider {
        initial: q16(1),
        coefficients: vec![Coefficient::new(q16(6), q16(2)), Coefficient::new(q16(4), q16(2))],
    };

    let evaluator = Evaluator::with_arithmetic(&provider, 2, format, RoundingMode::Nearest);

    assert_eq!(evaluator.evaluate(), Ok(Fixed::from_raw(163_840)));
}

#[test]
fn lentz_evaluates_scaled_fraction() {
    let format = Format::new(16);

    let provider = TestProvider {
        initial: q16(1),
        coefficients: vec![Coefficient::new(q16(6), q16(2)), Coefficient::new(q16(4), q16(2))],
    };

    let evaluator = Evaluator::with_arithmetic(&provider, 2, format, RoundingMode::Nearest)
        .with_algorithm(EvaluationAlgorithm::Lentz);

    assert_close(evaluator.evaluate().unwrap(), Fixed::from_raw(163_840), 4);
}

#[test]
fn algorithms_produce_similar_results() {
    let format = Format::new(16);

    let provider = TestProvider {
        initial: q16(1),
        coefficients: vec![
            Coefficient::new(q16(2), q16(3)),
            Coefficient::new(q16(4), q16(5)),
            Coefficient::new(q16(6), q16(7)),
            Coefficient::new(q16(8), q16(9)),
        ],
    };

    let backward = Evaluator::with_arithmetic(&provider, 4, format, RoundingMode::Nearest)
        .with_algorithm(EvaluationAlgorithm::Backward)
        .evaluate()
        .unwrap();

    let lentz = Evaluator::with_arithmetic(&provider, 4, format, RoundingMode::Nearest)
        .with_algorithm(EvaluationAlgorithm::Lentz)
        .evaluate()
        .unwrap();

    assert_close(lentz, backward, 8);
}

#[test]
fn builder_methods_replace_fields() {
    let provider = TestProvider {
        initial: Fixed::from_raw(1),
        coefficients: vec![Coefficient::new(Fixed::from_raw(1), Fixed::from_raw(1))],
    };

    let evaluator = Evaluator::new(&provider, 1)
        .with_fraction(ContinuedFraction::new(3))
        .with_depth(2)
        .with_format(Format::new(16))
        .with_rounding(RoundingMode::Nearest)
        .with_algorithm(EvaluationAlgorithm::Lentz);

    assert_eq!(evaluator.depth(), 2);

    assert_eq!(evaluator.format(), Format::new(16));

    assert_eq!(evaluator.rounding(), RoundingMode::Nearest);

    assert_eq!(evaluator.algorithm(), EvaluationAlgorithm::Lentz);
}

#[test]
fn setter_methods_replace_fields() {
    let provider = TestProvider {
        initial: Fixed::from_raw(1),
        coefficients: vec![Coefficient::new(Fixed::from_raw(1), Fixed::from_raw(1))],
    };

    let mut evaluator = Evaluator::new(&provider, 1);

    evaluator.set_fraction(ContinuedFraction::new(4));

    evaluator.set_depth(2);

    evaluator.set_format(Format::new(16));

    evaluator.set_rounding(RoundingMode::Nearest);

    evaluator.set_algorithm(EvaluationAlgorithm::Lentz);

    assert_eq!(evaluator.fraction(), ContinuedFraction::new(2));

    assert_eq!(evaluator.format(), Format::new(16));

    assert_eq!(evaluator.rounding(), RoundingMode::Nearest);

    assert_eq!(evaluator.algorithm(), EvaluationAlgorithm::Lentz);
}

#[test]
fn rejects_zero_depth_for_all_algorithms() {
    let provider = TestProvider { initial: Fixed::from_raw(0), coefficients: Vec::new() };

    let backward = Evaluator::new(&provider, 0);

    let lentz = Evaluator::new(&provider, 0).with_algorithm(EvaluationAlgorithm::Lentz);

    assert_eq!(backward.evaluate(), Err(Error::InvalidDepth));

    assert_eq!(lentz.evaluate(), Err(Error::InvalidDepth));
}

#[test]
fn rejects_missing_coefficient() {
    let provider = TestProvider {
        initial: Fixed::from_raw(0),
        coefficients: vec![Coefficient::new(Fixed::from_raw(1), Fixed::from_raw(1))],
    };

    let evaluator = Evaluator::new(&provider, 2);

    assert_eq!(evaluator.evaluate(), Err(Error::InvalidDepth));
}

#[test]
fn backward_reports_zero_terminal_denominator() {
    let provider = TestProvider {
        initial: Fixed::from_raw(0),
        coefficients: vec![Coefficient::new(Fixed::from_raw(1), Fixed::from_raw(0))],
    };

    let evaluator = Evaluator::new(&provider, 1);

    assert_eq!(evaluator.evaluate(), Err(Error::DivisionByZero));
}
