//! Policy of the mass-matrix factorisation.
//!
//! The generalised eigenproblem is reduced to a standard one through a
//! Cholesky factor of the mass matrix. The matrix is nudged towards positive
//! definiteness before the first attempt; if that attempt fails, it is shifted
//! by a larger fixed amount and tried once more. A second failure means that
//! the matrix is not even nearly positive definite, which no input of a
//! physical bar produces.
use crate::binary64::Binary64;
use vstd::prelude::*;

verus! {

/// Bit pattern of `1e-12`, the share of a diagonal entry's magnitude that is
/// added to it before the first attempt.
pub const RELATIVE_SHIFT_BITS: u64 = 0x3D71_9799_812D_EA11;

/// Bit pattern of `1e-20`, the least magnitude that the relative shift is
/// taken of.
pub const MAGNITUDE_FLOOR_BITS: u64 = 0x3BC7_9CA1_0C92_4223;

/// Bit pattern of `1e-8`, the amount added to every diagonal entry before the
/// second attempt.
pub const FIXED_SHIFT_BITS: u64 = 0x3E45_798E_E230_8C3A;

/// Which attempt at factorising the mass matrix has just been made.
#[derive(Clone, Copy, Debug, PartialEq, Eq, Structural)]
pub enum Attempt {
    /// On the matrix with the relative shift.
    First,
    /// On the matrix with the fixed shift on top.
    Second,
}

/// What to do after an attempt.
#[derive(Clone, Copy, Debug, PartialEq, Eq, Structural)]
pub enum Step {
    /// A factor was found: go on to the reduction and the eigenvalues.
    Proceed,
    /// Add the fixed shift to the diagonal and make the second attempt.
    Reinforce,
    /// Give up: the failure is fatal and no result may be made up.
    Abort,
}

/// The step that follows an attempt and its outcome.
pub open spec fn step_after(attempt: Attempt, factorised: bool) -> Step {
    if factorised {
        Step::Proceed
    } else {
        match attempt {
            Attempt::First => Step::Reinforce,
            Attempt::Second => Step::Abort,
        }
    }
}

/// The number `1e-12`.
pub open spec fn spec_relative_shift() -> Binary64 {
    Binary64 { bits: RELATIVE_SHIFT_BITS }
}

/// The number `1e-20`.
pub open spec fn spec_magnitude_floor() -> Binary64 {
    Binary64 { bits: MAGNITUDE_FLOOR_BITS }
}

/// The number `1e-8`.
pub open spec fn spec_fixed_shift() -> Binary64 {
    Binary64 { bits: FIXED_SHIFT_BITS }
}

/// The magnitude that the relative shift of a diagonal entry is taken of: the
/// entry's own, or the floor where that is smaller or no number.
pub open spec fn shift_base_of(diagonal: Binary64) -> Binary64 {
    if diagonal.abs().gt(magnitude_floor()) {
        diagonal.abs()
    } else {
        magnitude_floor()
    }
}

/// The share of a diagonal entry's magnitude added before the first attempt.
#[verifier::when_used_as_spec(spec_relative_shift)]
pub fn relative_shift() -> (r: Binary64)
    ensures
        r == spec_relative_shift(),
        r.is_positive(),
{
    Binary64 { bits: RELATIVE_SHIFT_BITS }
}

/// The least magnitude that the relative shift is taken of.
#[verifier::when_used_as_spec(spec_magnitude_floor)]
pub fn magnitude_floor() -> (r: Binary64)
    ensures
        r == spec_magnitude_floor(),
        r.is_positive(),
{
    Binary64 { bits: MAGNITUDE_FLOOR_BITS }
}

/// The amount added to every diagonal entry before the second attempt.
#[verifier::when_used_as_spec(spec_fixed_shift)]
pub fn fixed_shift() -> (r: Binary64)
    ensures
        r == spec_fixed_shift(),
        r.is_positive(),
{
    Binary64 { bits: FIXED_SHIFT_BITS }
}

/// The magnitude that the relative shift of a diagonal entry is taken of.
pub fn shift_base(diagonal: Binary64) -> (base: Binary64)
    ensures
        base == shift_base_of(diagonal),
        base.is_positive(),
        !base.lt(magnitude_floor()),
{
    let magnitude = diagonal.abs();
    let floor = magnitude_floor();
    if magnitude.gt(floor) {
        magnitude
    } else {
        floor
    }
}

/// Decides what follows an attempt at factorising the mass matrix.
pub fn after_attempt(attempt: Attempt, factorised: bool) -> (step: Step)
    ensures
        step == step_after(attempt, factorised),
{
    if factorised {
        Step::Proceed
    } else {
        match attempt {
            Attempt::First => Step::Reinforce,
            Attempt::Second => Step::Abort,
        }
    }
}

/// The factorisation is retried once and no more: only a failed first attempt
/// is followed by another, only a failed second attempt is fatal, and a
/// factor that was found is always used.
pub proof fn lemma_single_retry(attempt: Attempt, factorised: bool)
    ensures
        step_after(attempt, factorised) == Step::Reinforce <==> attempt == Attempt::First
            && !factorised,
        step_after(attempt, factorised) == Step::Abort <==> attempt == Attempt::Second
            && !factorised,
        step_after(attempt, factorised) == Step::Proceed <==> factorised,
{
}

} // verus!
