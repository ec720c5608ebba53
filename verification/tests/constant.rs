use fixed_math::number::constant::{LN_2_Q32, integer, ln_2, one, two};
use fixed_math::number::{Fixed, Format, RoundingMode};

#[test]
fn encodes_integer_constants() {
    let format = Format::new(8);

    assert_eq!(integer(7, format), Ok(Fixed::from_raw(1_792)));

    assert_eq!(one(format), Ok(Fixed::from_raw(256)));

    assert_eq!(two(format), Ok(Fixed::from_raw(512)));
}

#[test]
fn exposes_q32_ln_two() {
    assert_eq!(Fixed::from_raw(LN_2_Q32), Fixed::from_raw(2_977_044_471));
}

#[test]
fn rescales_ln_two_to_q16() {
    assert_eq!(ln_2(Format::new(16), RoundingMode::Nearest), Ok(Fixed::from_raw(45_426)));
}

#[test]
fn rescales_ln_two_to_q8() {
    assert_eq!(ln_2(Format::new(8), RoundingMode::Nearest), Ok(Fixed::from_raw(177)));
}

#[test]
fn integer_format_rounds_ln_two() {
    assert_eq!(ln_2(Format::new(0), RoundingMode::Nearest), Ok(Fixed::from_raw(1)));

    assert_eq!(ln_2(Format::new(0), RoundingMode::TowardZero), Ok(Fixed::from_raw(0)));
}
