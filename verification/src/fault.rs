//! The ways in which an evaluation can go wrong.
use vstd::prelude::*;

verus! {

/// A reason for which a bar has no spectrum.
///
/// Too few elastic modes is no fault: the spectrum is then shorter than was
/// asked for.
#[derive(Clone, Copy, Debug, PartialEq, Eq, Structural)]
pub enum Fault {
    /// The element with this index has a height, or a section built from
    /// it, that is no positive number.
    InvalidGeometry { element: usize },
    /// The mass matrix could not be factorised, not even after the fixed
    /// shift.
    NumericalFailure,
}

} // verus!
