//! Fixed-point fractions.
//!
//! Rates, multipliers and utilisation levels are held in millionths, so
//! that every product the model takes is an exact integer floor.

use vstd::prelude::*;

verus! {

/// The number of millionths in one whole.
pub const MICROS_PER_UNIT: u64 = 1_000_000;

/// A non-negative fraction, held as a count of millionths.
#[derive(Clone, Copy, Debug, PartialEq, Eq, Structural, Hash)]
pub struct Fraction {
    pub micros: u64,
}

impl DeepView for Fraction {
    type V = Fraction;

    open spec fn deep_view(&self) -> Fraction {
        *self
    }
}

/// The floor of `x` times `micros` millionths.
pub open spec fn scaled(x: int, micros: int) -> int {
    (x * micros) / 1_000_000
}

/// `x` cut down to the largest value a `u64` holds.
pub open spec fn clip(x: int) -> int {
    if x > u64::MAX as int {
        u64::MAX as int
    } else {
        x
    }
}

impl Fraction {
    /// The floor of `x` times this fraction, cut down to the range of `u64`.
    pub open spec fn of(self, x: int) -> int {
        clip(scaled(x, self.micros as int))
    }

    pub fn from_micros(micros: u64) -> (f: Self)
        ensures
            f.micros == micros,
    {
        Fraction { micros }
    }

    /// The fraction `percent / 100`.
    pub fn from_percent(percent: u32) -> (f: Self)
        ensures
            f.micros == percent * 10_000,
    {
        let wide: u64 = percent as u64;
        Fraction { micros: wide * 10_000 }
    }

    pub fn zero() -> (f: Self)
        ensures
            f.micros == 0,
    {
        Fraction { micros: 0 }
    }

    pub fn one() -> (f: Self)
        ensures
            f.micros == 1_000_000,
    {
        Fraction { micros: 1_000_000 }
    }

    /// The floor of `x` times this fraction; `u64::MAX` where that is larger.
    pub fn scale(&self, x: u64) -> (r: u64)
        ensures
            r == self.of(x as int),
    {
        let wide: u128 = x as u128;
        let m: u128 = self.micros as u128;
        assert(wide * m <= 0xFFFF_FFFF_FFFF_FFFF * 0xFFFF_FFFF_FFFF_FFFF) by (nonlinear_arith)
            requires
                wide <= 0xFFFF_FFFF_FFFF_FFFF,
                m <= 0xFFFF_FFFF_FFFF_FFFF,
        ;
        let q: u128 = (wide * m) / 1_000_000;
        if q > u64::MAX as u128 {
            u64::MAX
        } else {
            q as u64
        }
    }

    /// Whether this fraction is strictly larger than `other`.
    pub fn exceeds(&self, other: &Fraction) -> (b: bool)
        ensures
            b == (self.micros > other.micros),
    {
        self.micros > other.micros
    }
}

} // verus!
