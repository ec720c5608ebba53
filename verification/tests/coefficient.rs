use fixed_math::cf::Coefficient;
use fixed_math::number::Fixed;

#[test]
fn creates_coefficient_pair() {
    let coefficient = Coefficient::new(Fixed::from_raw(3), Fixed::from_raw(5));

    assert_eq!(coefficient.numerator(), Fixed::from_raw(3));

    assert_eq!(coefficient.denominator(), Fixed::from_raw(5));
}

#[test]
fn extracts_coefficient_parts() {
    let coefficient = Coefficient::new(Fixed::from_raw(7), Fixed::from_raw(11));

    assert_eq!(coefficient.into_parts(), (Fixed::from_raw(7), Fixed::from_raw(11)));
}
