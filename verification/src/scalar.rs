//! Real numbers carried as their IEEE-754 double-precision bit patterns.
//!
//! Times (seconds on the speech timeline), coordinates and sizes are real
//! numbers. The library never does arithmetic on them; it only compares them,
//! picks the larger of two, and hands them through. Those operations are
//! defined here on the 64-bit encoding, following IEEE-754 exactly:
//! every comparison with a NaN is false, and `-0` equals `+0`.
use vstd::prelude::*;

verus! {

/// The sign bit of the encoding.
pub const SIGN_BIT: u64 = 0x8000_0000_0000_0000;

/// The encoding of positive infinity (all exponent bits set, empty mantissa).
pub const INFINITY_BITS: u64 = 0x7FF0_0000_0000_0000;

/// A real number, stored as the 64-bit IEEE-754 double-precision pattern.
#[derive(Clone, Copy, Debug)]
pub struct Real {
    pub bits: u64,
}

/// The magnitude part of an encoding (everything but the sign bit).
pub open spec fn abs_bits(b: u64) -> int {
    if b >= SIGN_BIT {
        b - SIGN_BIT
    } else {
        b as int
    }
}

/// Whether an encoding is a NaN.
pub open spec fn bits_nan(b: u64) -> bool {
    abs_bits(b) > INFINITY_BITS
}

/// An integer that orders all non-NaN encodings exactly as the numbers they
/// encode: negative numbers below zero, `-0` and `+0` on the same key.
pub open spec fn bits_key(b: u64) -> int {
    if b >= SIGN_BIT {
        SIGN_BIT - abs_bits(b)
    } else {
        SIGN_BIT + b
    }
}

impl Real {
    /// Whether the number is a NaN.
    pub open spec fn spec_nan(self) -> bool {
        bits_nan(self.bits)
    }

    /// The order key of the encoding (see [`bits_key`]).
    pub open spec fn key(self) -> int {
        bits_key(self.bits)
    }

    /// `self < other` as the numbers compare.
    pub open spec fn spec_lt(self, other: Real) -> bool {
        !self.spec_nan() && !other.spec_nan() && self.key() < other.key()
    }

    /// `self <= other` as the numbers compare.
    pub open spec fn spec_le(self, other: Real) -> bool {
        !self.spec_nan() && !other.spec_nan() && self.key() <= other.key()
    }

    /// `self == other` as the numbers compare.
    pub open spec fn same_value(self, other: Real) -> bool {
        !self.spec_nan() && !other.spec_nan() && self.key() == other.key()
    }

    /// The larger of two numbers; a NaN argument yields the other argument.
    pub open spec fn spec_max(self, other: Real) -> Real {
        if self.spec_nan() {
            other
        } else if other.spec_nan() {
            self
        } else if self.key() < other.key() {
            other
        } else {
            self
        }
    }

    /// The number with this encoding.
    pub fn from_bits(bits: u64) -> (r: Real)
        ensures
            r.bits == bits,
    {
        Real { bits }
    }

    /// Positive zero.
    pub fn zero() -> (r: Real)
        ensures
            r.bits == 0,
            r.key() == SIGN_BIT,
            !r.spec_nan(),
    {
        Real { bits: 0 }
    }

    /// Positive infinity, which no finite number exceeds.
    pub fn infinity() -> (r: Real)
        ensures
            r.bits == INFINITY_BITS,
            !r.spec_nan(),
            forall|x: Real| !x.spec_nan() ==> x.key() <= r.key(),
    {
        Real { bits: INFINITY_BITS }
    }

    /// Whether the number is a NaN.
    pub fn is_nan(&self) -> (r: bool)
        ensures
            r == self.spec_nan(),
    {
        let abs = if self.bits >= SIGN_BIT {
            self.bits - SIGN_BIT
        } else {
            self.bits
        };
        abs > INFINITY_BITS
    }

    /// The order key of the number (see [`bits_key`]).
    pub fn order_key(&self) -> (k: u64)
        ensures
            k as int == self.key(),
    {
        if self.bits >= SIGN_BIT {
            SIGN_BIT - (self.bits - SIGN_BIT)
        } else {
            SIGN_BIT + self.bits
        }
    }

    /// `self < other` as the numbers compare.
    pub fn lt(&self, other: &Real) -> (r: bool)
        ensures
            r == self.spec_lt(*other),
    {
        !self.is_nan() && !other.is_nan() && self.order_key() < other.order_key()
    }

    /// `self <= other` as the numbers compare.
    pub fn le(&self, other: &Real) -> (r: bool)
        ensures
            r == self.spec_le(*other),
    {
        !self.is_nan() && !other.is_nan() && self.order_key() <= other.order_key()
    }

    /// `self > other` as the numbers compare.
    pub fn gt(&self, other: &Real) -> (r: bool)
        ensures
            r == other.spec_lt(*self),
    {
        other.lt(self)
    }

    /// `self == other` as the numbers compare.
    pub fn eq_value(&self, other: &Real) -> (r: bool)
        ensures
            r == self.same_value(*other),
    {
        !self.is_nan() && !other.is_nan() && self.order_key() == other.order_key()
    }

    /// The larger of the two numbers; if one is a NaN the other is returned.
    pub fn max(self, other: Real) -> (r: Real)
        ensures
            r == self.spec_max(other),
    {
        if self.is_nan() {
            other
        } else if other.is_nan() {
            self
        } else if self.order_key() < other.order_key() {
            other
        } else {
            self
        }
    }
}

} // verus!
