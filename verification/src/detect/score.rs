//! Confidences, thresholds and probabilities, carried by their IEEE-754 single
//! precision bit patterns.
//!
//! Scoring itself is floating-point work done by the caller. What the decision logic
//! needs from those numbers is to carry them unchanged and, for probabilities, to
//! compare them exactly as `f32` comparison does. Both are done here on the bit pattern,
//! so that nothing is rounded on the way through.

use vstd::prelude::*;

verus! {

/// An `f32`, held as its bit pattern (`f32::to_bits`).
#[derive(Debug, Clone, Copy, PartialEq, Eq, Structural)]
pub struct Score {
    pub bits: u32,
}

/// Bit pattern of `1.0f32`.
pub const ONE_BITS: u32 = 0x3F80_0000;

/// Bit pattern of `0.0f32`.
pub const ZERO_BITS: u32 = 0;

/// Sign bit of a single-precision pattern.
pub const SIGN_BIT: u32 = 0x8000_0000;

/// Largest magnitude pattern that is not a NaN: positive infinity.
pub const INFINITY_BITS: u32 = 0x7F80_0000;

/// The magnitude part (everything but the sign bit) of a pattern.
pub open spec fn magnitude(bits: u32) -> int {
    if bits >= SIGN_BIT {
        bits - SIGN_BIT
    } else {
        bits as int
    }
}

/// A NaN has an all-ones exponent and a non-zero mantissa: its magnitude lies above
/// that of infinity.
pub open spec fn is_nan(bits: u32) -> bool {
    magnitude(bits) > INFINITY_BITS
}

/// For patterns that are not NaN, an integer that orders them exactly as their values
/// are ordered: IEEE-754 is sign and magnitude, and within one sign a larger magnitude
/// pattern is a larger magnitude value. Both zeros map to 0.
pub open spec fn order_key(bits: u32) -> int {
    if bits >= SIGN_BIT {
        -magnitude(bits)
    } else {
        magnitude(bits)
    }
}

/// `a < b` as `f32` comparison answers it.
pub open spec fn float_lt(a: u32, b: u32) -> bool {
    !is_nan(a) && !is_nan(b) && order_key(a) < order_key(b)
}

/// `a >= b` as `f32` comparison answers it.
pub open spec fn float_ge(a: u32, b: u32) -> bool {
    !is_nan(a) && !is_nan(b) && order_key(a) >= order_key(b)
}

/// The integer `f32::total_cmp` orders patterns by: the pattern itself when the sign
/// bit is clear, and below every such one, larger magnitudes lower, when it is set.
/// NaNs take their place at either end; the order is total.
pub open spec fn total_key(bits: u32) -> int {
    if bits >= SIGN_BIT {
        -1 - magnitude(bits)
    } else {
        bits as int
    }
}

impl Score {
    pub open spec fn one() -> Score {
        Score { bits: ONE_BITS }
    }

    pub open spec fn zero() -> Score {
        Score { bits: ZERO_BITS }
    }

    /// `1.0`.
    pub fn certain() -> (score: Score)
        ensures
            score == Score::one(),
    {
        Score { bits: ONE_BITS }
    }

    /// `0.0`.
    pub fn nothing() -> (score: Score)
        ensures
            score == Score::zero(),
    {
        Score { bits: ZERO_BITS }
    }

    /// `self < other`, as for the `f32` values these patterns hold.
    pub fn lt(self, other: Score) -> (less: bool)
        ensures
            less == float_lt(self.bits, other.bits),
    {
        let a = Self::key_of(self.bits);
        let b = Self::key_of(other.bits);
        !Self::nan(self.bits) && !Self::nan(other.bits) && a < b
    }

    /// `self >= other`, as for the `f32` values these patterns hold.
    pub fn ge(self, other: Score) -> (at_least: bool)
        ensures
            at_least == float_ge(self.bits, other.bits),
    {
        let a = Self::key_of(self.bits);
        let b = Self::key_of(other.bits);
        !Self::nan(self.bits) && !Self::nan(other.bits) && a >= b
    }

    /// Whether `self` comes after `other` in `f32::total_cmp` order.
    pub fn total_after(self, other: Score) -> (after: bool)
        ensures
            after == (total_key(self.bits) > total_key(other.bits)),
    {
        Self::total_key_of(self.bits) > Self::total_key_of(other.bits)
    }

    fn total_key_of(bits: u32) -> (key: i64)
        ensures
            key == total_key(bits),
    {
        if bits >= SIGN_BIT {
            -1 - ((bits - SIGN_BIT) as i64)
        } else {
            bits as i64
        }
    }

    fn nan(bits: u32) -> (nan: bool)
        ensures
            nan == is_nan(bits),
    {
        let magnitude = if bits >= SIGN_BIT {
            bits - SIGN_BIT
        } else {
            bits
        };
        magnitude > INFINITY_BITS
    }

    fn key_of(bits: u32) -> (key: i64)
        ensures
            key == order_key(bits),
    {
        if bits >= SIGN_BIT {
            -((bits - SIGN_BIT) as i64)
        } else {
            bits as i64
        }
    }
}

} // verus!
