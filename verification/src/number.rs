use vstd::prelude::*;

verus! {

/// Bit pattern of the sign of a double.
pub const SIGN_BIT: u64 = 0x8000_0000_0000_0000;

/// Bit pattern of Euler's number as a double.
pub const E_BITS: u64 = 0x4005_BF0A_8B14_5769;

/// Bit pattern of the circle constant as a double.
pub const PI_BITS: u64 = 0x4009_21FB_5444_2D18;

/// A double-precision value, held as its IEEE-754 bit pattern.
///
/// Two numbers are the same exactly when their patterns are: `0.0` and
/// `-0.0` differ, and a NaN equals itself.
#[derive(Clone, Copy, Debug, PartialEq, Eq, Structural)]
pub struct Number {
    pub bits: u64,
}

/// The pattern `bits` with its sign bit inverted.
pub open spec fn flip_sign(bits: u64) -> u64 {
    if bits >= SIGN_BIT {
        (bits - SIGN_BIT) as u64
    } else {
        (bits + SIGN_BIT) as u64
    }
}

impl Number {
    /// Positive zero.
    pub open spec fn zero() -> Number {
        Number { bits: 0 }
    }

    /// Euler's number.
    pub open spec fn e() -> Number {
        Number { bits: E_BITS }
    }

    /// The circle constant.
    pub open spec fn pi() -> Number {
        Number { bits: PI_BITS }
    }

    /// The arithmetic negation: only the sign changes.
    pub open spec fn negated(self) -> Number {
        Number { bits: flip_sign(self.bits) }
    }

    /// The number with the pattern `bits`.
    pub fn from_bits(bits: u64) -> (r: Number)
        ensures
            r.bits == bits,
    {
        Number { bits }
    }

    /// The pattern of the number.
    pub fn to_bits(&self) -> (r: u64)
        ensures
            r == self.bits,
    {
        self.bits
    }

    /// Negates the value by inverting its sign bit.
    pub fn negate(&self) -> (r: Number)
        ensures
            r == self.negated(),
    {
        if self.bits >= SIGN_BIT {
            Number { bits: self.bits - SIGN_BIT }
        } else {
            Number { bits: self.bits + SIGN_BIT }
        }
    }
}

} // verus!
