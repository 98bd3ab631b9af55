//! Single-precision numbers as the renderer's decisions see them.
//!
//! The renderer's arithmetic is done in IEEE 754 binary32 by its caller. What
//! the library decides on (which of two distances is nearer, whether a root
//! lies inside an interval, how two boxes merge) needs only the order of such
//! numbers, and that order can be read off the bit pattern: a number that is
//! not a NaN is ordered like the signed integer whose sign is the top bit and
//! whose magnitude is the low 31 bits.

use vstd::prelude::*;

verus! {

/// The sign bit of a binary32 pattern.
pub const SIGN_BIT: u32 = 0x8000_0000;

/// The pattern of positive infinity: every exponent bit set, no fraction bit.
pub const INFINITY_BITS: u32 = 0x7f80_0000;

/// A binary32 number, held by its bit pattern.
///
/// Equality of two `Scalar`s with `==` is equality of patterns, which is finer
/// than numeric equality: the two zeros differ, and a NaN equals itself.
#[derive(Clone, Copy, Debug, PartialEq, Eq, Structural)]
pub struct Scalar {
    pub bits: u32,
}

impl Scalar {
    /// The low 31 bits: exponent and fraction read as one integer.
    pub open spec fn magnitude(self) -> int {
        if self.bits >= SIGN_BIT {
            self.bits - SIGN_BIT
        } else {
            self.bits as int
        }
    }

    /// Whether the sign bit is set. Negative zero has it set.
    pub open spec fn sign(self) -> bool {
        self.bits >= SIGN_BIT
    }

    /// A NaN has every exponent bit set and some fraction bit set.
    pub open spec fn is_nan(self) -> bool {
        self.magnitude() > INFINITY_BITS
    }

    /// The integer that orders the numbers: for patterns `a`, `b` that are not
    /// NaN, `a` is numerically below `b` exactly when `a.rank() < b.rank()`,
    /// and numerically equal exactly when the ranks are equal.
    pub open spec fn rank(self) -> int {
        if self.sign() {
            -self.magnitude()
        } else {
            self.magnitude()
        }
    }

    /// Numeric `<`: false as soon as either side is a NaN.
    pub open spec fn lt(self, other: Scalar) -> bool {
        !self.is_nan() && !other.is_nan() && self.rank() < other.rank()
    }

    /// Numeric `<=`: false as soon as either side is a NaN.
    pub open spec fn le(self, other: Scalar) -> bool {
        !self.is_nan() && !other.is_nan() && self.rank() <= other.rank()
    }

    /// The smaller of two numbers, where a NaN loses to a number.
    /// Of two zeros, or of two NaNs, it is the first.
    pub open spec fn min_of(self, other: Scalar) -> Scalar {
        if self.is_nan() {
            other
        } else if other.is_nan() {
            self
        } else if self.rank() <= other.rank() {
            self
        } else {
            other
        }
    }

    /// The larger of two numbers, where a NaN loses to a number.
    /// Of two zeros it is the first; of two NaNs the second.
    pub open spec fn max_of(self, other: Scalar) -> Scalar {
        if self.is_nan() {
            other
        } else if other.is_nan() {
            self
        } else if self.rank() >= other.rank() {
            self
        } else {
            other
        }
    }

    /// The number with the given bit pattern.
    pub fn from_bits(bits: u32) -> (s: Scalar)
        ensures
            s.bits == bits,
    {
        Scalar { bits }
    }

    /// The bit pattern.
    pub fn to_bits(&self) -> (bits: u32)
        ensures
            bits == self.bits,
    {
        self.bits
    }

    /// Positive zero.
    pub fn zero() -> (s: Scalar)
        ensures
            s.bits == 0,
            s.rank() == 0,
            !s.is_nan(),
    {
        Scalar { bits: 0 }
    }

    /// Positive infinity, which no number exceeds.
    pub fn infinity() -> (s: Scalar)
        ensures
            s.bits == INFINITY_BITS,
            !s.is_nan(),
            forall|x: Scalar| !x.is_nan() ==> x.rank() <= s.rank(),
    {
        Scalar { bits: INFINITY_BITS }
    }

    /// Whether the pattern is a NaN.
    pub fn nan(&self) -> (b: bool)
        ensures
            b == self.is_nan(),
    {
        let low: u32 = if self.bits >= SIGN_BIT {
            self.bits - SIGN_BIT
        } else {
            self.bits
        };
        low > INFINITY_BITS
    }

    /// The rank as a machine integer.
    pub fn key(&self) -> (k: i64)
        ensures
            k == self.rank(),
            -0x7fff_ffff <= k <= 0x7fff_ffff,
    {
        if self.bits >= SIGN_BIT {
            let low: u32 = self.bits - SIGN_BIT;
            -(low as i64)
        } else {
            self.bits as i64
        }
    }

    /// Numeric `self < other`.
    pub fn less(&self, other: &Scalar) -> (b: bool)
        ensures
            b == self.lt(*other),
    {
        !self.nan() && !other.nan() && self.key() < other.key()
    }

    /// Numeric `self <= other`.
    pub fn less_eq(&self, other: &Scalar) -> (b: bool)
        ensures
            b == self.le(*other),
    {
        !self.nan() && !other.nan() && self.key() <= other.key()
    }

    /// Numeric `self > other`, which is `other < self`.
    pub fn greater(&self, other: &Scalar) -> (b: bool)
        ensures
            b == other.lt(*self),
    {
        other.less(self)
    }

    /// Numeric `self >= other`, which is `other <= self`.
    pub fn greater_eq(&self, other: &Scalar) -> (b: bool)
        ensures
            b == other.le(*self),
    {
        other.less_eq(self)
    }

    /// Numeric `self < 0`. Neither zero is below zero.
    pub fn is_negative(&self) -> (b: bool)
        ensures
            b == (!self.is_nan() && self.rank() < 0),
    {
        !self.nan() && self.key() < 0
    }

    /// Numeric `self > 0`.
    pub fn is_positive(&self) -> (b: bool)
        ensures
            b == (!self.is_nan() && self.rank() > 0),
    {
        !self.nan() && self.key() > 0
    }

    /// The smaller of the two, ignoring a NaN beside a number.
    pub fn min(self, other: Scalar) -> (m: Scalar)
        ensures
            m == self.min_of(other),
    {
        if self.nan() {
            other
        } else if other.nan() {
            self
        } else if self.key() <= other.key() {
            self
        } else {
            other
        }
    }

    /// The larger of the two, ignoring a NaN beside a number.
    pub fn max(self, other: Scalar) -> (m: Scalar)
        ensures
            m == self.max_of(other),
    {
        if self.nan() {
            other
        } else if other.nan() {
            self
        } else if self.key() >= other.key() {
            self
        } else {
            other
        }
    }
}

/// On numbers, the order is total: of two that are not NaN, one is below the
/// other or they are numerically equal.
pub proof fn lemma_order_total(a: Scalar, b: Scalar)
    requires
        !a.is_nan(),
        !b.is_nan(),
    ensures
        a.lt(b) || b.lt(a) || a.rank() == b.rank(),
        a.le(b) <==> !b.lt(a),
{
}

/// The smaller and the larger of two numbers are one of the two and bound
/// both; a NaN on one side hands the other side through.
pub proof fn lemma_min_max_bounds(a: Scalar, b: Scalar)
    ensures
        a.min_of(b) == a || a.min_of(b) == b,
        a.max_of(b) == a || a.max_of(b) == b,
        !a.is_nan() && !b.is_nan() ==> {
            &&& a.min_of(b).rank() <= a.rank()
            &&& a.min_of(b).rank() <= b.rank()
            &&& a.max_of(b).rank() >= a.rank()
            &&& a.max_of(b).rank() >= b.rank()
        },
        !a.is_nan() || !b.is_nan() ==> !a.min_of(b).is_nan() && !a.max_of(b).is_nan(),
{
}

} // verus!
