use fixed_math::cf::{Coefficient, CoefficientProvider, Lambert};
use fixed_math::error::Error;
use fixed_math::number::{Fixed, Format, RoundingMode};

#[test]
fn creates_integer_provider() {
    let lambert = Lambert::new(Fixed::from_raw(4)).unwrap();

    assert_eq!(lambert.x(), Fixed::from_raw(4));

    assert_eq!(lambert.x_squared(), Fixed::from_raw(16));

    assert_eq!(lambert.format(), Format::new(0));
}

#[test]
fn creates_scaled_provider() {
    let format = Format::new(8);

    let lambert = Lambert::with_arithmetic(Fixed::from_raw(384), format, RoundingMode::Nearest).unwrap();

    assert_eq!(lambert.x(), Fixed::from_raw(384));

    assert_eq!(lambert.x_squared(), Fixed::from_raw(576));
}

#[test]
fn generates_scaled_first_coefficient() {
    let format = Format::new(8);

    let lambert = Lambert::with_arithmetic(Fixed::from_raw(384), format, RoundingMode::Nearest).unwrap();

    assert_eq!(
        lambert.coefficient(0),
        Ok(Coefficient::new(Fixed::from_raw(384), Fixed::from_raw(256))),
    );
}

#[test]
fn generates_scaled_odd_denominators() {
    let format = Format::new(8);

    let lambert = Lambert::with_arithmetic(Fixed::from_raw(512), format, RoundingMode::Nearest).unwrap();

    assert_eq!(
        lambert.coefficient(1),
        Ok(Coefficient::new(Fixed::from_raw(1024), Fixed::from_raw(768))),
    );

    assert_eq!(
        lambert.coefficient(2),
        Ok(Coefficient::new(Fixed::from_raw(1024), Fixed::from_raw(1280))),
    );

    assert_eq!(
        lambert.coefficient(3),
        Ok(Coefficient::new(Fixed::from_raw(1024), Fixed::from_raw(1792))),
    );
}

#[test]
fn reports_scaled_square_overflow() {
    assert_eq!(
        Lambert::with_arithmetic(Fixed::from_raw(i64::MAX), Format::new(0), RoundingMode::Nearest),
        Err(Error::Overflow),
    );
}
