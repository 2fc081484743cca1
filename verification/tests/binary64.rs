use wasm_physics::binary64::{Binary64, INFINITY_BITS, ONE_BITS, SIGN_BIT};

fn b(x: f64) -> Binary64 {
    Binary64 { bits: x.to_bits() }
}

fn samples() -> Vec<f64> {
    vec![
        f64::NEG_INFINITY,
        f64::MIN,
        -1.0e300,
        -2.5,
        -1.0,
        -f64::MIN_POSITIVE,
        -5.0e-324,
        -0.0,
        0.0,
        5.0e-324,
        f64::MIN_POSITIVE,
        1.0e-20,
        0.05,
        0.1,
        1.0,
        1.0000000000000002,
        2.5,
        411.0,
        1.0e300,
        f64::MAX,
        f64::INFINITY,
        f64::NAN,
        -f64::NAN,
        f64::from_bits(0x7FF0_0000_0000_0001),
        f64::from_bits(0xFFFF_FFFF_FFFF_FFFF),
    ]
}

#[test]
fn zero_one_and_infinity_are_the_numbers_they_name() {
    assert_eq!(Binary64::zero(), b(0.0));
    assert_eq!(Binary64::one(), b(1.0));
    assert_eq!(Binary64::infinity(), b(f64::INFINITY));
    assert_eq!(ONE_BITS, 1.0f64.to_bits());
    assert_eq!(INFINITY_BITS, f64::INFINITY.to_bits());
    assert_eq!(SIGN_BIT, (-0.0f64).to_bits());
}

#[test]
fn nan_is_recognised() {
    for x in samples() {
        assert_eq!(b(x).is_nan(), x.is_nan(), "{x:?}");
    }
}

#[test]
fn comparisons_agree_with_the_hardware() {
    for x in samples() {
        for y in samples() {
            assert_eq!(b(x).lt(b(y)), x < y, "{x:?} < {y:?}");
            assert_eq!(b(x).le(b(y)), x <= y, "{x:?} <= {y:?}");
            assert_eq!(b(x).gt(b(y)), x > y, "{x:?} > {y:?}");
        }
    }
}

#[test]
fn positive_means_above_zero() {
    for x in samples() {
        assert_eq!(b(x).is_positive(), x > 0.0, "{x:?}");
    }
    assert!(!b(0.0).is_positive());
    assert!(!b(-0.0).is_positive());
    assert!(b(5.0e-324).is_positive());
    assert!(!b(f64::NAN).is_positive());
}

#[test]
fn keys_order_numbers_as_their_values() {
    for x in samples() {
        for y in samples() {
            if !x.is_nan() && !y.is_nan() {
                assert_eq!(b(x).key() < b(y).key(), x < y, "{x:?} {y:?}");
                assert_eq!(b(x).key() == b(y).key(), x == y, "{x:?} {y:?}");
            }
        }
    }
}

#[test]
fn keys_of_landmarks() {
    assert_eq!(b(0.0).key(), 0);
    assert_eq!(b(-0.0).key(), 0);
    assert_eq!(b(1.0).key(), 0x3FF0_0000_0000_0000);
    assert_eq!(b(-1.0).key(), -0x3FF0_0000_0000_0000);
    assert_eq!(b(f64::INFINITY).key(), 0x7FF0_0000_0000_0000);
    assert_eq!(Binary64 { bits: u64::MAX }.key(), -i64::MAX);
    assert_eq!(Binary64 { bits: 0x7FFF_FFFF_FFFF_FFFF }.key(), i64::MAX);
}

#[test]
fn total_order_agrees_with_total_cmp() {
    for x in samples() {
        for y in samples() {
            let expected = x.total_cmp(&y) != std::cmp::Ordering::Greater;
            assert_eq!(b(x).total_le(b(y)), expected, "{x:?} {y:?}");
        }
    }
}

#[test]
fn total_order_puts_negative_zero_first() {
    assert!(b(-0.0).total_le(b(0.0)));
    assert!(!b(0.0).total_le(b(-0.0)));
    assert!(b(0.0).total_le(b(0.0)));
}

#[test]
fn equality_is_by_pattern() {
    assert_ne!(b(0.0), b(-0.0));
    assert_eq!(b(f64::NAN), b(f64::NAN));
    assert_eq!(b(0.1), b(0.1));
}

#[test]
fn the_absolute_value_agrees_with_the_hardware() {
    for x in samples() {
        assert_eq!(b(x).abs().bits, x.abs().to_bits(), "{x:?}");
    }
    assert_eq!(b(-0.0).abs(), b(0.0));
    assert_eq!(b(-2.5).abs(), b(2.5));
    assert_eq!(b(2.5).abs(), b(2.5));
    assert_eq!(b(f64::NEG_INFINITY).abs(), b(f64::INFINITY));
}
