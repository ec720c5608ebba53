use fixed_math::cf::{Atanh, Coefficient, CoefficientProvider, Evaluator};
use fixed_math::error::Error;
use fixed_math::number::{Fixed, Format, RoundingMode};
use fixed_math::traits::Evaluate;

fn q16() -> Format {
    Format::new(16)
}

#[test]
fn stores_input_and_square() {
    let provider = Atanh::with_arithmetic(Fixed::from_raw(32_768), q16(), RoundingMode::Nearest).unwrap();

    assert_eq!(provider.x(), Fixed::from_raw(32_768));

    assert_eq!(provider.x_squared(), Fixed::from_raw(16_384));
}

#[test]
fn generates_first_coefficient() {
    let provider = Atanh::with_arithmetic(Fixed::from_raw(32_768), q16(), RoundingMode::Nearest).unwrap();

    assert_eq!(
        provider.coefficient(0),
        Ok(Coefficient::new(Fixed::from_raw(32_768), Fixed::from_raw(65_536))),
    );
}

#[test]
fn generates_later_coefficients() {
    let provider = Atanh::with_arithmetic(Fixed::from_raw(32_768), q16(), RoundingMode::Nearest).unwrap();

    assert_eq!(
        provider.coefficient(1),
        Ok(Coefficient::new(Fixed::from_raw(-16_384), Fixed::from_raw(196_608))),
    );

    assert_eq!(
        provider.coefficient(2),
        Ok(Coefficient::new(Fixed::from_raw(-65_536), Fixed::from_raw(327_680))),
    );

    assert_eq!(
        provider.coefficient(3),
        Ok(Coefficient::new(Fixed::from_raw(-147_456), Fixed::from_raw(458_752))),
    );
}

#[test]
fn evaluates_atanh_half() {
    let format = q16();

    let provider = Atanh::with_arithmetic(Fixed::from_raw(32_768), format, RoundingMode::Nearest).unwrap();

    let result = Evaluator::with_arithmetic(&provider, 16, format, RoundingMode::Nearest)
        .evaluate()
        .unwrap();

    // atanh(0.5) * 65536 ≈ 35999.45
    let difference = result.into_raw().abs_diff(35_999);

    assert!(difference <= 8, "unexpected raw value: {}", result.into_raw());
}

#[test]
fn rejects_positive_domain_boundary() {
    assert_eq!(
        Atanh::with_arithmetic(Fixed::from_raw(65_536), q16(), RoundingMode::Nearest),
        Err(Error::Domain),
    );
}

#[test]
fn rejects_negative_domain_boundary() {
    assert_eq!(
        Atanh::with_arithmetic(Fixed::from_raw(-65_536), q16(), RoundingMode::Nearest),
        Err(Error::Domain),
    );
}
