use wasm_physics::binary64::Binary64;
use wasm_physics::solver::{
    after_attempt, fixed_shift, magnitude_floor, relative_shift, shift_base, Attempt, Step,
    FIXED_SHIFT_BITS, MAGNITUDE_FLOOR_BITS, RELATIVE_SHIFT_BITS,
};

#[test]
fn a_factor_that_was_found_is_used() {
    assert_eq!(after_attempt(Attempt::First, true), Step::Proceed);
    assert_eq!(after_attempt(Attempt::Second, true), Step::Proceed);
}

#[test]
fn a_failed_first_attempt_is_followed_by_a_second() {
    assert_eq!(after_attempt(Attempt::First, false), Step::Reinforce);
}

#[test]
fn a_failed_second_attempt_is_fatal() {
    assert_eq!(after_attempt(Attempt::Second, false), Step::Abort);
}

#[test]
fn the_shifts_are_the_numbers_they_name() {
    assert_eq!(f64::from_bits(relative_shift().bits), 1e-12);
    assert_eq!(f64::from_bits(magnitude_floor().bits), 1e-20);
    assert_eq!(f64::from_bits(fixed_shift().bits), 1e-8);
    assert_eq!(RELATIVE_SHIFT_BITS, 1e-12f64.to_bits());
    assert_eq!(MAGNITUDE_FLOOR_BITS, 1e-20f64.to_bits());
    assert_eq!(FIXED_SHIFT_BITS, 1e-8f64.to_bits());
}

#[test]
fn the_shift_is_taken_of_the_magnitude_but_of_the_floor_at_least() {
    let entries = [
        0.0,
        -0.0,
        1.0e-21,
        -1.0e-21,
        1.0e-20,
        -1.0e-20,
        1.0000000000000002e-20,
        3.2e-7,
        -3.2e-7,
        5.0e-324,
        1.0e300,
        f64::INFINITY,
        f64::NEG_INFINITY,
        f64::NAN,
        -f64::NAN,
    ];
    for d in entries {
        let base = shift_base(Binary64 { bits: d.to_bits() });
        assert_eq!(base.bits, d.abs().max(1e-20).to_bits(), "{d:?}");
    }
    assert_eq!(f64::from_bits(shift_base(Binary64 { bits: (-3.2e-7f64).to_bits() }).bits), 3.2e-7);
    assert_eq!(f64::from_bits(shift_base(Binary64 { bits: 0 }).bits), 1e-20);
}
