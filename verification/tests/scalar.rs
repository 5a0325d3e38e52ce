use kor_engine::geometry::scalar::{INFINITY_BITS, ONE_BITS, SIGN_BIT};
use kor_engine::geometry::Scalar;

fn scalar(value: f32) -> Scalar {
    Scalar::from_bits(value.to_bits())
}

fn samples() -> Vec<f32> {
    vec![
        0.0,
        -0.0,
        1.0,
        -1.0,
        0.5,
        -0.5,
        1.0e-40,
        -1.0e-40,
        f32::MIN_POSITIVE,
        f32::MAX,
        f32::MIN,
        f32::INFINITY,
        f32::NEG_INFINITY,
        f32::NAN,
        -f32::NAN,
        3.25,
        -3.25,
        16777216.0,
        std::f32::consts::PI,
    ]
}

#[test]
fn order_agrees_with_the_numbers() {
    for &a in &samples() {
        for &b in &samples() {
            assert_eq!(scalar(a).lt(scalar(b)), a < b, "{a} < {b}");
            assert_eq!(scalar(a).le(scalar(b)), a <= b, "{a} <= {b}");
            assert_eq!(scalar(a).gt(scalar(b)), a > b, "{a} > {b}");
            assert_eq!(scalar(a).ge(scalar(b)), a >= b, "{a} >= {b}");
            assert_eq!(scalar(a).same_number(scalar(b)), a == b, "{a} == {b}");
        }
    }
}

#[test]
fn not_a_number_is_told_apart() {
    for &a in &samples() {
        assert_eq!(scalar(a).is_nan(), a.is_nan());
    }
    assert!(Scalar::from_bits(0x7f80_0001).is_nan());
    assert!(Scalar::from_bits(0xffff_ffff).is_nan());
    assert!(!Scalar::from_bits(0x7f80_0000).is_nan());
    assert!(!Scalar::from_bits(0xff80_0000).is_nan());
}

#[test]
fn zeros_are_one_number_and_two_patterns() {
    assert!(scalar(0.0).same_number(scalar(-0.0)));
    assert_ne!(scalar(0.0), scalar(-0.0));
    assert!(!scalar(-0.0).lt(scalar(0.0)));
    assert!(scalar(-0.0).le(scalar(0.0)));
}

#[test]
fn constants_are_the_patterns_they_name() {
    assert_eq!(Scalar::zero().to_bits(), 0.0f32.to_bits());
    assert_eq!(Scalar::one().to_bits(), 1.0f32.to_bits());
    assert_eq!(ONE_BITS, 1.0f32.to_bits());
    assert_eq!(INFINITY_BITS, f32::INFINITY.to_bits());
    assert_eq!(SIGN_BIT, (-0.0f32).to_bits());
    assert_eq!(Scalar::from_bits(0x4049_0fdb).to_bits(), 0x4049_0fdb);
}
