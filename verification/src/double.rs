//! Double-precision numbers held by their bits, and the order in which this
//! library ranks them.
//!
//! The library never does arithmetic on a double. It hands the bits of its
//! inputs through unchanged, and it ranks them: by magnitude and sign, with the
//! two zeros level and every NaN level with every other NaN, above positive
//! infinity.

use vstd::prelude::*;

verus! {

/// The sign bit of a double.
pub const SIGN_BIT: u64 = 0x8000_0000_0000_0000;

/// The bits of positive infinity. A larger magnitude is a NaN.
pub const INFINITY_BITS: u64 = 0x7ff0_0000_0000_0000;

/// A double, by its IEEE-754 binary64 bit pattern.
#[derive(Clone, Copy, Debug, PartialEq, Eq, Structural)]
pub struct Double {
    pub bits: u64,
}

impl Double {
    /// The bits without the sign.
    pub open spec fn magnitude(self) -> int {
        (self.bits % SIGN_BIT) as int
    }

    pub open spec fn is_negative(self) -> bool {
        self.bits >= SIGN_BIT
    }

    pub open spec fn is_nan(self) -> bool {
        self.magnitude() > INFINITY_BITS
    }

    /// The integer by which this value is ranked: `a` ranks below `b` exactly
    /// when `a.order_key() < b.order_key()`. On numbers this is the numeric
    /// order; a NaN ranks one step above positive infinity.
    pub open spec fn order_key(self) -> int {
        if self.is_nan() {
            INFINITY_BITS + 1
        } else if self.is_negative() {
            -self.magnitude()
        } else {
            self.magnitude()
        }
    }

    pub fn from_bits(bits: u64) -> (value: Double)
        ensures
            value.bits == bits,
    {
        Double { bits }
    }

    pub fn to_bits(self) -> (bits: u64)
        ensures
            bits == self.bits,
    {
        self.bits
    }

    /// Computes `order_key`.
    pub fn key(self) -> (key: i64)
        ensures
            key == self.order_key(),
    {
        let magnitude: u64 = self.bits % SIGN_BIT;
        if magnitude > INFINITY_BITS {
            (INFINITY_BITS + 1) as i64
        } else if self.bits >= SIGN_BIT {
            -(magnitude as i64)
        } else {
            magnitude as i64
        }
    }
}

} // verus!
