use fixed_math::cf::ContinuedFraction;
use fixed_math::error::Error;

#[test]
fn stores_depth() {
    let fraction = ContinuedFraction::new(8);

    assert_eq!(fraction.depth(), 8);

    assert!(!fraction.is_empty());
}

#[test]
fn builder_changes_depth() {
    let fraction = ContinuedFraction::new(4).with_depth(10);

    assert_eq!(fraction.depth(), 10);
}

#[test]
fn setter_changes_depth() {
    let mut fraction = ContinuedFraction::new(4);

    fraction.set_depth(10);

    assert_eq!(fraction.depth(), 10);
}

#[test]
fn empty_when_depth_is_zero() {
    let fraction = ContinuedFraction::default();

    assert!(fraction.is_empty());

    assert_eq!(fraction.validate(), Err(Error::InvalidDepth));
}

#[test]
fn positive_depth_is_valid() {
    let fraction = ContinuedFraction::new(1);

    assert_eq!(fraction.validate(), Ok(()));
}
