//! The engine's scalar: a binary fixed-point number held in an `i64`.
//!
//! A `Fixed` with raw representation `r` stands for the rational number
//! `r / SCALE`. All operations saturate at the ends of the `i64` range and
//! are total: no operation panics, whatever its operands.

use vstd::prelude::*;

verus! {

/// Number of raw units per whole unit (2^20).
pub const SCALE: i64 = 1048576;

/// Raw representation of one half.
pub const HALF: i64 = 524288;

/// Raw representation of one quarter.
pub const QUARTER: i64 = 262144;

/// Saturate an unbounded integer into the `i64` range.
pub open spec fn sat(x: int) -> int {
    if x > i64::MAX {
        i64::MAX as int
    } else if x < i64::MIN {
        i64::MIN as int
    } else {
        x
    }
}

/// Division truncating toward zero (the sign-magnitude form used by the
/// executable code), for a positive divisor.
pub open spec fn tdiv(p: int, d: int) -> int
    recommends
        d > 0,
{
    if p >= 0 {
        p / d
    } else {
        -((-p) / d)
    }
}

/// Saturating fixed-point addition on raw representations.
pub open spec fn fx_add(a: int, b: int) -> int {
    sat(a + b)
}

/// Saturating fixed-point subtraction on raw representations.
pub open spec fn fx_sub(a: int, b: int) -> int {
    sat(a - b)
}

/// Saturating fixed-point negation on raw representations.
pub open spec fn fx_neg(a: int) -> int {
    sat(-a)
}

/// Saturating fixed-point multiplication on raw representations: the
/// double-width product is rescaled by `SCALE`, truncating toward zero.
pub open spec fn fx_mul(a: int, b: int) -> int {
    sat(tdiv(a * b, SCALE as int))
}

/// The number of whole units in `x`, rounded up.
pub open spec fn ceil_units(x: int) -> int {
    if x % (SCALE as int) == 0 {
        x / (SCALE as int)
    } else {
        x / (SCALE as int) + 1
    }
}

/// An integer clamped into the `u32` range.
pub open spec fn clamp_u32(x: int) -> int {
    if x < 0 {
        0
    } else if x > u32::MAX {
        u32::MAX as int
    } else {
        x
    }
}

/// An exact fixed-point scalar; the value is `raw / SCALE`.
#[derive(Clone, Copy, Debug, PartialEq, Eq, Structural)]
pub struct Fixed {
    pub raw: i64,
}

impl View for Fixed {
    type V = int;

    open spec fn view(&self) -> int {
        self.raw as int
    }
}

impl Fixed {
    /// The scalar with the given raw representation.
    pub fn from_raw(raw: i64) -> (r: Fixed)
        ensures
            r@ == raw as int,
    {
        Fixed { raw }
    }

    /// The raw representation.
    pub fn raw(self) -> (r: i64)
        ensures
            r as int == self@,
    {
        self.raw
    }

    /// The scalar for zero.
    pub fn zero() -> (r: Fixed)
        ensures
            r@ == 0,
    {
        Fixed { raw: 0 }
    }

    /// The scalar for one.
    pub fn one() -> (r: Fixed)
        ensures
            r@ == SCALE as int,
    {
        Fixed { raw: SCALE }
    }

    /// The scalar for the whole number `n`, saturating at the range ends.
    pub fn from_units(n: i64) -> (r: Fixed)
        ensures
            r@ == sat(n * SCALE as int),
    {
        match n.checked_mul(SCALE) {
            Some(v) => Fixed { raw: v },
            None => {
                if n > 0 {
                    Fixed { raw: i64::MAX }
                } else {
                    Fixed { raw: i64::MIN }
                }
            },
        }
    }

    /// Saturating addition.
    pub fn add(self, o: Fixed) -> (r: Fixed)
        ensures
            r@ == fx_add(self@, o@),
    {
        match self.raw.checked_add(o.raw) {
            Some(v) => Fixed { raw: v },
            None => {
                if self.raw > 0 {
                    Fixed { raw: i64::MAX }
                } else {
                    Fixed { raw: i64::MIN }
                }
            },
        }
    }

    /// Saturating subtraction.
    pub fn sub(self, o: Fixed) -> (r: Fixed)
        ensures
            r@ == fx_sub(self@, o@),
    {
        match self.raw.checked_sub(o.raw) {
            Some(v) => Fixed { raw: v },
            None => {
                if self.raw >= 0 {
                    Fixed { raw: i64::MAX }
                } else {
                    Fixed { raw: i64::MIN }
                }
            },
        }
    }

    /// Saturating negation.
    pub fn neg(self) -> (r: Fixed)
        ensures
            r@ == fx_neg(self@),
    {
        if self.raw == i64::MIN {
            Fixed { raw: i64::MAX }
        } else {
            Fixed { raw: -self.raw }
        }
    }

    /// Saturating multiplication, rescaled by `SCALE` and truncated toward
    /// zero.
    pub fn mul(self, o: Fixed) -> (r: Fixed)
        ensures
            r@ == fx_mul(self@, o@),
    {
        proof {
            assert((self.raw as int) * (o.raw as int) <= 170141183460469231731687303715884105727int
                && (self.raw as int) * (o.raw as int) >= -170141183460469231731687303715884105728int)
                by (nonlinear_arith)
                requires
                    -9223372036854775808 <= self.raw as int <= 9223372036854775807,
                    -9223372036854775808 <= o.raw as int <= 9223372036854775807,
            ;
        }
        let p: i128 = (self.raw as i128) * (o.raw as i128);
        if p >= 0 {
            let q: u128 = (p as u128) / (SCALE as u128);
            assert(q == tdiv(self@ * o@, SCALE as int));
            if q > 9223372036854775807u128 {
                Fixed { raw: i64::MAX }
            } else {
                Fixed { raw: q as i64 }
            }
        } else {
            proof {
                assert((self.raw as int) * (o.raw as int)
                    > -170141183460469231731687303715884105727int)
                    by (nonlinear_arith)
                    requires
                        -9223372036854775808 <= self.raw as int <= 9223372036854775807,
                        -9223372036854775808 <= o.raw as int <= 9223372036854775807,
                ;
            }
            let m: u128 = (-p) as u128;
            let q: u128 = m / (SCALE as u128);
            proof {
                assert(m as int == -(self@ * o@));
                assert(q as int == (m as int) / (SCALE as int));
                assert(tdiv(self@ * o@, SCALE as int) == -((m as int) / (SCALE as int)));
            }
            assert(-(q as int) == tdiv(self@ * o@, SCALE as int));
            if q >= 9223372036854775808u128 {
                Fixed { raw: i64::MIN }
            } else {
                Fixed { raw: -(q as i64) }
            }
        }
    }

    /// A quarter of the value, truncated toward zero.
    pub fn quarter(self) -> (r: Fixed)
        ensures
            r@ == tdiv(self@, 4),
    {
        if self.raw >= 0 {
            Fixed { raw: self.raw / 4 }
        } else if self.raw == i64::MIN {
            Fixed { raw: -2305843009213693952 }
        } else {
            Fixed { raw: -((-self.raw) / 4) }
        }
    }

    /// The value rounded up to a whole number of units and clamped into
    /// the `u32` range.
    pub fn ceil_units_u32(self) -> (r: u32)
        ensures
            r as int == clamp_u32(ceil_units(self@)),
    {
        if self.raw < 0 {
            proof {
                assert(self@ % (SCALE as int) == 0 ==> self@ / (SCALE as int) <= 0);
                assert(self@ / (SCALE as int) < 0 ==> self@ / (SCALE as int) + 1 <= 0);
                assert(self@ < 0 ==> self@ / (SCALE as int) < 0 || (self@ / (SCALE as int) == 0
                    && self@ % (SCALE as int) != 0));
            }
            0
        } else {
            let u = self.raw as u64;
            let q = u / (SCALE as u64);
            let rem = u % (SCALE as u64);
            let c: u64 = if rem == 0 {
                q
            } else {
                q + 1
            };
            if c > u32::MAX as u64 {
                u32::MAX
            } else {
                c as u32
            }
        }
    }

    /// Whether this value is strictly below the other.
    pub fn lt(self, o: Fixed) -> (b: bool)
        ensures
            b == (self@ < o@),
    {
        self.raw < o.raw
    }

    /// Whether this value is at least the other.
    pub fn ge(self, o: Fixed) -> (b: bool)
        ensures
            b == (self@ >= o@),
    {
        self.raw >= o.raw
    }
}

} // verus!
