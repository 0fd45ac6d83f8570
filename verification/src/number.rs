//! The values that a bank holds: single-precision numbers by their bits,
//! groups of four of them, and complex numbers made of two.

use vstd::prelude::*;

verus! {

/// The bits of `0.0`.
pub const ZERO_BITS: u32 = 0x0000_0000;

/// The bits of `1.0`.
pub const ONE_BITS: u32 = 0x3f80_0000;

/// The bits of `-2.0`.
pub const MINUS_TWO_BITS: u32 = 0xc000_0000;

/// The bits of the single-precision number nearest to pi.
pub const PI_BITS: u32 = 0x4049_0fdb;

/// The bits of positive infinity. The positive finite numbers are those whose
/// bits lie strictly between `ZERO_BITS` and these.
pub const INFINITY_BITS: u32 = 0x7f80_0000;

/// The bits of `-0.0`. The negative numbers are those whose bits are greater,
/// the smaller ones in magnitude first.
pub const MINUS_ZERO_BITS: u32 = 0x8000_0000;

/// The bits of `-1.0`.
pub const MINUS_ONE_BITS: u32 = 0xbf80_0000;

/// The bits of the single-precision number nearest to minus pi.
pub const MINUS_PI_BITS: u32 = 0xc049_0fdb;

/// An IEEE 754 single-precision (binary32) number, held as its bits.
///
/// Two values are equal here when their bits are.
#[derive(Clone, Copy, Debug, PartialEq, Eq, Structural)]
pub struct Binary32 {
    pub bits: u32,
}

impl Binary32 {
    /// The number with the given bits.
    pub fn from_bits(bits: u32) -> (x: Self)
        ensures
            x == (Binary32 { bits }),
    {
        Binary32 { bits }
    }

    /// The number is greater than zero and not infinite.
    pub open spec fn is_positive_finite(self) -> bool {
        ZERO_BITS < self.bits < INFINITY_BITS
    }

    /// The number is at least minus one and less than zero.
    pub open spec fn is_negative_fraction(self) -> bool {
        MINUS_ZERO_BITS < self.bits <= MINUS_ONE_BITS
    }

    /// As an angle in radians, the number is less than half a turn clockwise.
    pub open spec fn is_clockwise(self) -> bool {
        MINUS_ZERO_BITS < self.bits < MINUS_PI_BITS
    }
}

/// Four numbers that one vector instruction works on at a time.
#[derive(Clone, Copy, Debug, PartialEq, Eq, Structural)]
pub struct Lanes {
    pub x0: Binary32,
    pub x1: Binary32,
    pub x2: Binary32,
    pub x3: Binary32,
}

impl Lanes {
    /// The same number in every lane.
    pub open spec fn all(x: Binary32) -> Lanes {
        Lanes { x0: x, x1: x, x2: x, x3: x }
    }

    /// The number in lane `i`.
    pub open spec fn lane(self, i: int) -> Binary32 {
        if i == 0 {
            self.x0
        } else if i == 1 {
            self.x1
        } else if i == 2 {
            self.x2
        } else {
            self.x3
        }
    }

    /// Every lane scaled by `c`.
    pub open spec fn scaled(self, c: spec_fn(Binary32) -> Binary32) -> Lanes {
        Lanes { x0: c(self.x0), x1: c(self.x1), x2: c(self.x2), x3: c(self.x3) }
    }

    /// Puts the same number in every lane.
    pub fn splat(x: Binary32) -> (lanes: Lanes)
        ensures
            lanes == Lanes::all(x),
    {
        Lanes { x0: x, x1: x, x2: x, x3: x }
    }
}

/// A complex number.
#[derive(Clone, Copy, Debug, PartialEq, Eq, Structural)]
pub struct Complex {
    pub re: Binary32,
    pub im: Binary32,
}

impl Complex {
    /// Both parts scaled by `c`.
    pub open spec fn scaled(self, c: spec_fn(Binary32) -> Binary32) -> Complex {
        Complex { re: c(self.re), im: c(self.im) }
    }

    /// The complex number `re + im * i`.
    pub fn new(re: Binary32, im: Binary32) -> (c: Self)
        ensures
            c == (Complex { re, im }),
    {
        Complex { re, im }
    }
}

/// The number `0.0`.
pub open spec fn zero() -> Binary32 {
    Binary32 { bits: ZERO_BITS }
}

/// The number `1.0`.
pub open spec fn one() -> Binary32 {
    Binary32 { bits: ONE_BITS }
}

/// The number `-2.0`.
pub open spec fn minus_two() -> Binary32 {
    Binary32 { bits: MINUS_TWO_BITS }
}

/// The number nearest to pi.
pub open spec fn pi() -> Binary32 {
    Binary32 { bits: PI_BITS }
}

} // verus!
