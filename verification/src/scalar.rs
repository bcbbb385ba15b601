//! Double-precision numbers as the library sees them: opaque bit patterns that
//! can be classified and ordered, but on which no arithmetic is done.
//!
//! Sums, products, norms and decompositions are computed by the caller, who
//! hands the results over as [`Scalar`] values. Every decision that depends on
//! such a result is an IEEE 754 comparison, and those are integer comparisons on
//! the bit pattern.
use vstd::prelude::*;

verus! {

/// The bit that holds the sign.
pub const SIGN_BIT: u64 = 0x8000_0000_0000_0000;

/// The bit pattern of positive infinity: larger magnitudes are NaNs.
pub const INFINITY_BITS: u64 = 0x7FF0_0000_0000_0000;

/// The bit pattern of `1.0`.
pub const ONE_BITS: u64 = 0x3FF0_0000_0000_0000;

/// A double-precision number, held as its IEEE 754 bit pattern.
///
/// `==` compares bit patterns; the numeric comparisons are methods.
#[derive(Clone, Copy, Debug, PartialEq, Eq, Structural)]
pub struct Scalar {
    pub bits: u64,
}

impl Scalar {
    /// Whether the sign bit is set.
    pub open spec fn negative(self) -> bool {
        self.bits >= SIGN_BIT
    }

    /// The bit pattern without its sign; grows with the absolute value.
    pub open spec fn magnitude(self) -> int {
        if self.negative() {
            self.bits - SIGN_BIT
        } else {
            self.bits as int
        }
    }

    /// Neither an infinity nor a NaN.
    pub open spec fn spec_is_finite(self) -> bool {
        self.magnitude() < INFINITY_BITS
    }

    /// Not a number.
    pub open spec fn spec_is_nan(self) -> bool {
        self.magnitude() > INFINITY_BITS
    }

    /// Position in the numeric order. Both zeros have rank zero; the rank of a
    /// NaN means nothing.
    pub open spec fn rank(self) -> int {
        if self.negative() {
            -self.magnitude()
        } else {
            self.magnitude()
        }
    }

    /// Position in the IEEE 754 total order, which separates the two zeros and
    /// places negative NaNs below and positive NaNs above everything else.
    pub open spec fn spec_total_rank(self) -> i128 {
        if self.negative() {
            (-self.magnitude() - 1) as i128
        } else {
            self.magnitude() as i128
        }
    }

    /// `self < other`; false whenever a NaN takes part.
    pub open spec fn spec_lt(self, other: Scalar) -> bool {
        !self.spec_is_nan() && !other.spec_is_nan() && self.rank() < other.rank()
    }

    /// `self <= other`; false whenever a NaN takes part.
    pub open spec fn spec_le(self, other: Scalar) -> bool {
        !self.spec_is_nan() && !other.spec_is_nan() && self.rank() <= other.rank()
    }

    pub open spec fn spec_zero() -> Scalar {
        Scalar { bits: 0 }
    }

    pub open spec fn spec_one() -> Scalar {
        Scalar { bits: ONE_BITS }
    }

    pub open spec fn spec_infinity() -> Scalar {
        Scalar { bits: INFINITY_BITS }
    }

    /// The absolute value.
    pub open spec fn spec_abs(self) -> Scalar {
        Scalar { bits: self.magnitude() as u64 }
    }

    /// The number with the given bit pattern.
    pub fn from_bits(bits: u64) -> (r: Scalar)
        ensures
            r == (Scalar { bits }),
    {
        Scalar { bits }
    }

    /// The bit pattern of the number.
    pub fn to_bits(self) -> (bits: u64)
        ensures
            bits == self.bits,
    {
        self.bits
    }

    #[verifier::when_used_as_spec(spec_zero)]
    pub fn zero() -> (r: Scalar)
        ensures
            r == Scalar::spec_zero(),
    {
        Scalar { bits: 0 }
    }

    #[verifier::when_used_as_spec(spec_one)]
    pub fn one() -> (r: Scalar)
        ensures
            r == Scalar::spec_one(),
    {
        Scalar { bits: ONE_BITS }
    }

    #[verifier::when_used_as_spec(spec_infinity)]
    pub fn infinity() -> (r: Scalar)
        ensures
            r == Scalar::spec_infinity(),
    {
        Scalar { bits: INFINITY_BITS }
    }

    fn magnitude_bits(self) -> (m: u64)
        ensures
            m == self.magnitude(),
    {
        if self.bits >= SIGN_BIT {
            self.bits - SIGN_BIT
        } else {
            self.bits
        }
    }

    fn rank_bits(self) -> (r: i128)
        ensures
            r == self.rank(),
    {
        let m: i128 = self.magnitude_bits() as i128;
        if self.bits >= SIGN_BIT {
            -m
        } else {
            m
        }
    }

    /// The absolute value.
    #[verifier::when_used_as_spec(spec_abs)]
    pub fn abs(self) -> (r: Scalar)
        ensures
            r == self.spec_abs(),
    {
        Scalar { bits: self.magnitude_bits() }
    }

    /// Whether the number is neither an infinity nor a NaN.
    #[verifier::when_used_as_spec(spec_is_finite)]
    pub fn is_finite(self) -> (b: bool)
        ensures
            b == self.spec_is_finite(),
    {
        self.magnitude_bits() < INFINITY_BITS
    }

    /// Whether the value is not a number.
    #[verifier::when_used_as_spec(spec_is_nan)]
    pub fn is_nan(self) -> (b: bool)
        ensures
            b == self.spec_is_nan(),
    {
        self.magnitude_bits() > INFINITY_BITS
    }

    /// Position in the IEEE 754 total order.
    #[verifier::when_used_as_spec(spec_total_rank)]
    pub fn total_rank(self) -> (r: i128)
        ensures
            r == self.spec_total_rank(),
    {
        let m: i128 = self.magnitude_bits() as i128;
        if self.bits >= SIGN_BIT {
            -m - 1
        } else {
            m
        }
    }

    /// Position in the numeric order, as a sort key.
    pub fn numeric_rank(self) -> (r: i128)
        ensures
            r == self.rank(),
    {
        self.rank_bits()
    }

    /// The numeric comparison `self < other`.
    #[verifier::when_used_as_spec(spec_lt)]
    pub fn lt(self, other: Scalar) -> (b: bool)
        ensures
            b == self.spec_lt(other),
    {
        !self.is_nan() && !other.is_nan() && self.rank_bits() < other.rank_bits()
    }

    /// The numeric comparison `self <= other`.
    #[verifier::when_used_as_spec(spec_le)]
    pub fn le(self, other: Scalar) -> (b: bool)
        ensures
            b == self.spec_le(other),
    {
        !self.is_nan() && !other.is_nan() && self.rank_bits() <= other.rank_bits()
    }
}

/// The largest of some numbers, zero where none is larger.
pub open spec fn largest(values: Seq<Scalar>) -> Scalar
    decreases values.len(),
{
    if values.len() == 0 {
        Scalar::zero()
    } else {
        let rest = largest(values.drop_last());
        if rest.lt(values.last()) {
            values.last()
        } else {
            rest
        }
    }
}

/// The numeric order is a strict weak order on the numbers that are not NaNs:
/// irreflexive, transitive, and total up to the two zeros.
pub proof fn numeric_order_laws(a: Scalar, b: Scalar, c: Scalar)
    ensures
        !a.lt(a),
        a.lt(b) && b.lt(c) ==> a.lt(c),
        a.lt(b) ==> !b.lt(a),
        !a.is_nan() && !b.is_nan() ==> (a.le(b) <==> !b.lt(a)),
        a.is_nan() || b.is_nan() ==> !a.lt(b) && !a.le(b),
{
}

/// The total order separates any two bit patterns and refines the numeric order.
pub proof fn total_order_laws(a: Scalar, b: Scalar)
    ensures
        a != b <==> a.total_rank() != b.total_rank(),
        a.lt(b) ==> a.total_rank() < b.total_rank(),
{
}

/// The order of numbers is that of their bit patterns: among numbers without a sign the
/// larger pattern is the larger number, among those with one it is the smaller, and a
/// number with a sign is below one without unless both are zeros.
pub proof fn numeric_order_follows_bits(a: Scalar, b: Scalar)
    ensures
        a.bits < SIGN_BIT && b.bits < SIGN_BIT && a.bits <= INFINITY_BITS && b.bits
            <= INFINITY_BITS ==> (a.lt(b) <==> a.bits < b.bits) && (a.le(b) <==> a.bits <= b.bits),
        a.bits >= SIGN_BIT && b.bits >= SIGN_BIT && a.bits - SIGN_BIT <= INFINITY_BITS && b.bits
            - SIGN_BIT <= INFINITY_BITS ==> (a.lt(b) <==> a.bits > b.bits) && (a.le(b) <==> a.bits
            >= b.bits),
        a.bits >= SIGN_BIT && b.bits < SIGN_BIT && a.bits - SIGN_BIT <= INFINITY_BITS && b.bits
            <= INFINITY_BITS ==> a.le(b) && (a.lt(b) <==> a.bits != SIGN_BIT || b.bits != 0) && (
        b.le(a) <==> a.bits == SIGN_BIT && b.bits == 0),
        a.bits < SIGN_BIT ==> (a.is_nan() <==> a.bits > INFINITY_BITS) && (a.is_finite() <==> a.bits
            < INFINITY_BITS) && a.abs() == a,
        a.bits >= SIGN_BIT ==> (a.is_nan() <==> a.bits - SIGN_BIT > INFINITY_BITS) && (
        a.is_finite() <==> a.bits - SIGN_BIT < INFINITY_BITS) && a.abs().bits == a.bits - SIGN_BIT,
{
}

/// Every finite number lies strictly between the infinities, and a number that is not
/// finite is an infinity or not a number.
pub proof fn finite_numbers_are_bounded(a: Scalar)
    ensures
        a.is_finite() ==> a.abs().lt(Scalar::infinity()) && !a.is_nan(),
        !a.is_finite() ==> a.is_nan() || a.abs() == Scalar::infinity(),
        !a.is_nan() ==> Scalar::zero().le(a.abs()) && a.le(a.abs()),
        Scalar::zero().lt(Scalar::one()),
        Scalar::one().is_finite(),
{
}

/// The largest of some numbers is not below any of them, nor below zero, and it is one of
/// them or zero.
pub proof fn largest_bounds_all(values: Seq<Scalar>, k: int)
    ensures
        !largest(values).is_nan(),
        Scalar::zero().le(largest(values)),
        0 <= k < values.len() && !values[k].is_nan() ==> values[k].le(largest(values)),
        largest(values) == Scalar::zero() || values.contains(largest(values)),
    decreases values.len(),
{
    if values.len() > 0 {
        let rest = values.drop_last();
        largest_bounds_all(rest, k);
        if 0 <= k < rest.len() {
            assert(rest[k] == values[k]);
        }
        if rest.contains(largest(rest)) {
            assert(values[rest.index_of(largest(rest))] == largest(rest));
        }
        assert(values[values.len() - 1] == values.last());
    }
}

} // verus!
