//! Double-precision numbers as bit patterns, with the IEEE 754 order on them.
//!
//! A pattern has a sign bit, eleven exponent bits and fifty-two fraction
//! bits. Read as an integer without its sign bit, a pattern grows with the
//! magnitude of the number it encodes, up to infinity; the patterns beyond
//! that of infinity encode no number (NaN). Comparisons are therefore
//! comparisons of integers, which is how they are defined here.
use vstd::prelude::*;

verus! {

/// The sign bit of a double-precision bit pattern.
pub const SIGN_BIT: u64 = 0x8000_0000_0000_0000;

/// The bit pattern of positive infinity; every larger magnitude is a NaN.
pub const INFINITY_BITS: u64 = 0x7FF0_0000_0000_0000;

/// The bit pattern of the number one.
pub const ONE_BITS: u64 = 0x3FF0_0000_0000_0000;

/// A double-precision number, held by its IEEE 754 bit pattern.
///
/// Two values are equal (`==`) when their bit patterns are; the numeric
/// comparisons are [`Binary64::lt`] and its siblings.
#[derive(Clone, Copy, Debug, PartialEq, Eq, Structural)]
pub struct Binary64 {
    pub bits: u64,
}

impl Binary64 {
    /// The bit pattern with the sign bit cleared.
    pub open spec fn magnitude(self) -> int {
        if self.bits >= SIGN_BIT {
            self.bits - SIGN_BIT
        } else {
            self.bits as int
        }
    }

    /// The sign bit is set (also true of `-0.0` and of negative NaNs).
    pub open spec fn is_negative(self) -> bool {
        self.bits >= SIGN_BIT
    }

    /// The pattern encodes no number.
    pub open spec fn spec_is_nan(self) -> bool {
        self.magnitude() > INFINITY_BITS
    }

    /// Position on the number line: patterns that are numbers are ordered by
    /// value exactly as their ranks are, and both zeros have rank 0.
    pub open spec fn rank(self) -> int {
        if self.is_negative() {
            -self.magnitude()
        } else {
            self.magnitude()
        }
    }

    /// IEEE 754 `<`: false whenever either side is a NaN.
    pub open spec fn spec_lt(self, other: Binary64) -> bool {
        !self.spec_is_nan() && !other.spec_is_nan() && self.rank() < other.rank()
    }

    /// IEEE 754 `<=`: false whenever either side is a NaN.
    pub open spec fn spec_le(self, other: Binary64) -> bool {
        !self.spec_is_nan() && !other.spec_is_nan() && self.rank() <= other.rank()
    }

    /// IEEE 754 `>`: false whenever either side is a NaN.
    pub open spec fn spec_gt(self, other: Binary64) -> bool {
        other.spec_lt(self)
    }

    /// A number strictly above zero.
    pub open spec fn spec_is_positive(self) -> bool {
        !self.spec_is_nan() && self.rank() > 0
    }

    /// A total order on all bit patterns that agrees with `<=` on numbers:
    /// by rank, and `-0.0` before `+0.0`.
    pub open spec fn spec_total_le(self, other: Binary64) -> bool {
        self.rank() < other.rank() || (self.rank() == other.rank() && self.bits >= other.bits)
    }

    /// The same number without its sign: the pattern with the sign bit
    /// cleared.
    pub open spec fn spec_abs(self) -> Binary64 {
        Binary64 { bits: self.magnitude() as u64 }
    }

    /// The number `0.0`.
    pub open spec fn spec_zero() -> Binary64 {
        Binary64 { bits: 0 }
    }

    /// The number `1.0`.
    pub open spec fn spec_one() -> Binary64 {
        Binary64 { bits: ONE_BITS }
    }

    /// Positive infinity.
    pub open spec fn spec_infinity() -> Binary64 {
        Binary64 { bits: INFINITY_BITS }
    }

    /// The number `0.0`.
    #[verifier::when_used_as_spec(spec_zero)]
    pub fn zero() -> (r: Binary64)
        ensures
            r == Self::spec_zero(),
    {
        Binary64 { bits: 0 }
    }

    /// The number `1.0`.
    #[verifier::when_used_as_spec(spec_one)]
    pub fn one() -> (r: Binary64)
        ensures
            r == Self::spec_one(),
    {
        Binary64 { bits: ONE_BITS }
    }

    /// Positive infinity.
    #[verifier::when_used_as_spec(spec_infinity)]
    pub fn infinity() -> (r: Binary64)
        ensures
            r == Self::spec_infinity(),
    {
        Binary64 { bits: INFINITY_BITS }
    }

    /// Whether the pattern encodes no number.
    #[verifier::when_used_as_spec(spec_is_nan)]
    pub fn is_nan(self) -> (r: bool)
        ensures
            r == self.spec_is_nan(),
    {
        if self.bits >= SIGN_BIT {
            self.bits - SIGN_BIT > INFINITY_BITS
        } else {
            self.bits > INFINITY_BITS
        }
    }

    /// The absolute value.
    #[verifier::when_used_as_spec(spec_abs)]
    pub fn abs(self) -> (r: Binary64)
        ensures
            r == self.spec_abs(),
            !r.is_negative(),
            r.is_nan() == self.is_nan(),
            r.rank() == self.magnitude(),
    {
        if self.bits >= SIGN_BIT {
            Binary64 { bits: self.bits - SIGN_BIT }
        } else {
            self
        }
    }

    /// The rank as a machine integer.
    pub fn key(self) -> (k: i64)
        ensures
            k == self.rank(),
            -i64::MAX <= k <= i64::MAX,
    {
        if self.bits >= SIGN_BIT {
            let m: u64 = self.bits - SIGN_BIT;
            -(m as i64)
        } else {
            self.bits as i64
        }
    }

    /// IEEE 754 `<`.
    #[verifier::when_used_as_spec(spec_lt)]
    pub fn lt(self, other: Binary64) -> (r: bool)
        ensures
            r == self.spec_lt(other),
    {
        !self.is_nan() && !other.is_nan() && self.key() < other.key()
    }

    /// IEEE 754 `<=`.
    #[verifier::when_used_as_spec(spec_le)]
    pub fn le(self, other: Binary64) -> (r: bool)
        ensures
            r == self.spec_le(other),
    {
        !self.is_nan() && !other.is_nan() && self.key() <= other.key()
    }

    /// IEEE 754 `>`.
    #[verifier::when_used_as_spec(spec_gt)]
    pub fn gt(self, other: Binary64) -> (r: bool)
        ensures
            r == self.spec_gt(other),
    {
        other.lt(self)
    }

    /// Whether this is a number strictly above zero.
    #[verifier::when_used_as_spec(spec_is_positive)]
    pub fn is_positive(self) -> (r: bool)
        ensures
            r == self.spec_is_positive(),
            r == self.spec_gt(Binary64::zero()),
    {
        !self.is_nan() && self.key() > 0
    }

    /// Whether `self` comes no later than `other` in the total order on bit
    /// patterns.
    #[verifier::when_used_as_spec(spec_total_le)]
    pub fn total_le(self, other: Binary64) -> (r: bool)
        ensures
            r == self.spec_total_le(other),
    {
        let a: i64 = self.key();
        let b: i64 = other.key();
        a < b || (a == b && self.bits >= other.bits)
    }
}

/// `<` is irreflexive and transitive, and `<=` is `<` or numeric equality.
pub proof fn lemma_lt_strict_order(a: Binary64, b: Binary64, c: Binary64)
    ensures
        !a.lt(a),
        a.lt(b) && b.lt(c) ==> a.lt(c),
        a.lt(b) ==> !b.lt(a),
        a.le(b) <==> a.lt(b) || (!a.is_nan() && !b.is_nan() && a.rank() == b.rank()),
{
}

/// Of two numbers exactly one of `a < b`, `b < a` and equal rank holds, and
/// two numbers of equal rank are the same pattern or the two zeros.
pub proof fn lemma_numbers_comparable(a: Binary64, b: Binary64)
    requires
        !a.is_nan(),
        !b.is_nan(),
    ensures
        a.lt(b) || b.lt(a) || a.rank() == b.rank(),
        !(a.lt(b) && b.lt(a)),
        a.rank() == b.rank() ==> !a.lt(b) && !b.lt(a) && a.le(b) && b.le(a),
        a.rank() == b.rank() ==> a == b || (a.magnitude() == 0 && b.magnitude() == 0),
{
}

/// The absolute value of a number is the number or its opposite, whichever
/// is not below zero; two patterns that differ in the sign bit only have the
/// same absolute value.
pub proof fn lemma_abs(a: Binary64, b: Binary64)
    ensures
        a.abs().rank() == (if a.rank() < 0 {
            -a.rank()
        } else {
            a.rank()
        }),
        a.abs().abs() == a.abs(),
        a.magnitude() == b.magnitude() ==> a.abs() == b.abs(),
{
}

/// A NaN compares false with everything, itself included.
pub proof fn lemma_nan_unordered(a: Binary64, b: Binary64)
    requires
        a.is_nan(),
    ensures
        !a.lt(b),
        !b.lt(a),
        !a.le(b),
        !b.le(a),
        !a.gt(b),
        !a.is_positive(),
{
}

/// [`Binary64::total_le`] is a total order on bit patterns, and on numbers
/// `a <= b` follows from it.
pub proof fn lemma_total_le_is_total_order()
    ensures
        vstd::relations::total_ordering(|a: Binary64, b: Binary64| a.total_le(b)),
        forall|a: Binary64, b: Binary64|
            #[trigger] a.total_le(b) && !a.is_nan() && !b.is_nan() ==> a.le(b),
{
    let leq = |a: Binary64, b: Binary64| a.total_le(b);
    assert forall|x: Binary64, y: Binary64| #[trigger] leq(x, y) && #[trigger] leq(y, x) implies x
        == y by {
        assert(x.bits == y.bits);
    }
}

} // verus!
