//! Fixed-point scalar arithmetic.
//!
//! Every quantity of the simulation (coordinate, mass, time step, force
//! component) is a `Scalar`: an `i128` count of fixed units, where `UNIT`
//! raw units equal one. The scale is chosen so that the gravitational
//! constant `6.67408e-11` is exactly representable. All operations carry
//! exact contracts over the raw integers; products and quotients round
//! toward zero, which `trunc_div` captures.

use vstd::prelude::*;

verus! {

/// Number of raw units in 1.0: the fixed-point scale, 10^16.
pub const UNIT: i128 = 10_000_000_000_000_000;

/// Raw units in 0.001, handy for building scalars from literals.
pub const MILLI_UNIT: i128 = 10_000_000_000_000;

/// Truncating (round-toward-zero) division: the meaning of `/` on raw
/// values, matching the division of the executable code.
pub open spec fn trunc_div(a: int, b: int) -> int {
    if a >= 0 {
        a / b
    } else {
        -((-a) / b)
    }
}

/// The symmetric range of raw values every intermediate must stay in;
/// one short of the full `i128` range so that negation is always defined.
pub open spec fn fits(x: int) -> bool {
    -(i128::MAX as int) <= x <= i128::MAX as int
}

/// A fixed-point number: `raw` counts of `1 / UNIT`.
#[derive(Clone, Copy, PartialEq, Eq, Structural, Debug)]
pub struct Scalar {
    pub raw: i128,
}

impl Scalar {
    /// The raw count of fixed units as a mathematical integer.
    pub open spec fn v(self) -> int {
        self.raw as int
    }

    /// Builds a scalar directly from its raw count of `1 / UNIT` units.
    pub fn from_raw(raw: i128) -> (r: Scalar)
        ensures
            r.v() == raw,
    {
        Scalar { raw }
    }

    /// Builds the scalar `m / 1000`, exact for every `m`.
    pub fn from_milli(m: i64) -> (r: Scalar)
        ensures
            r.v() == m * MILLI_UNIT,
    {
        Scalar { raw: (m as i128) * MILLI_UNIT }
    }

    /// Builds the whole number `i`.
    pub fn from_int(i: i64) -> (r: Scalar)
        ensures
            r.v() == i * UNIT,
    {
        Scalar { raw: (i as i128) * UNIT }
    }

    /// The scalar zero.
    pub fn zero() -> (r: Scalar)
        ensures
            r.v() == 0,
    {
        Scalar { raw: 0 }
    }

    /// Exact addition.
    pub fn add(self, rhs: Scalar) -> (r: Scalar)
        requires
            fits(self.v() + rhs.v()),
        ensures
            r.v() == self.v() + rhs.v(),
    {
        Scalar { raw: self.raw + rhs.raw }
    }

    /// Exact subtraction.
    pub fn sub(self, rhs: Scalar) -> (r: Scalar)
        requires
            fits(self.v() - rhs.v()),
        ensures
            r.v() == self.v() - rhs.v(),
    {
        Scalar { raw: self.raw - rhs.raw }
    }

    /// Exact negation.
    pub fn neg(self) -> (r: Scalar)
        requires
            fits(-self.v()),
        ensures
            r.v() == -self.v(),
    {
        Scalar { raw: -self.raw }
    }

    /// Fixed-point product, rounded toward zero.
    pub fn mul(self, rhs: Scalar) -> (r: Scalar)
        requires
            fits(self.v() * rhs.v()),
        ensures
            r.v() == trunc_div(self.v() * rhs.v(), UNIT as int),
    {
        Scalar { raw: (self.raw * rhs.raw) / UNIT }
    }

    /// Fixed-point quotient by a positive divisor, rounded toward zero.
    pub fn div(self, rhs: Scalar) -> (r: Scalar)
        requires
            rhs.v() > 0,
            fits(self.v() * UNIT),
        ensures
            r.v() == trunc_div(self.v() * UNIT, rhs.v()),
    {
        Scalar { raw: (self.raw * UNIT) / rhs.raw }
    }

}

/// Integer square root: the greatest `r` with `r * r <= x`.
pub fn isqrt(x: u128) -> (r: u128)
    ensures
        r * r <= x,
        (r + 1) * (r + 1) > x,
        r < 0x1_0000_0000_0000_0000,
{
    if x == 0 {
        return 0;
    }
    let mut lo: u128 = 0;
    let mut hi: u128 = 0x1_0000_0000_0000_0000;
    while lo + 1 < hi
        invariant
            lo < hi,
            hi <= 0x1_0000_0000_0000_0000,
            lo * lo <= x,
            hi * hi > x,
        decreases hi - lo,
    {
        let mid: u128 = lo + (hi - lo) / 2;
        proof {
            vstd::arithmetic::div_mod::lemma_fundamental_div_mod(x as int, mid as int);
            vstd::arithmetic::div_mod::lemma_mod_bound(x as int, mid as int);
        }
        if mid <= x / mid {
            proof {
                assert(mid * mid <= x) by (nonlinear_arith)
                    requires
                        mid > 0 && mid <= x / mid && x / mid * mid + x % mid == x && x % mid
                            >= 0,
                ;
            }
            lo = mid;
        } else {
            proof {
                assert(mid * mid > x) by (nonlinear_arith)
                    requires
                        mid > 0 && mid > x / mid && x / mid * mid + x % mid == x && x % mid
                            < mid,
                ;
            }
            hi = mid;
        }
    }
    lo
}

/// Rounding toward zero never grows the magnitude of an exact quotient:
/// `|trunc_div(a, b)| * b <= |a|` for positive `b`.
pub proof fn lemma_trunc_div_bound(a: int, b: int)
    requires
        b > 0,
    ensures
        a >= 0 ==> 0 <= trunc_div(a, b) * b <= a,
        a <= 0 ==> a <= trunc_div(a, b) * b <= 0,
{
    if a >= 0 {
        assert(0 <= (a / b) * b <= a) by (nonlinear_arith)
            requires
                a >= 0 && b > 0,
        ;
    } else {
        assert(0 <= ((-a) / b) * b <= -a) by (nonlinear_arith)
            requires
                a < 0 && b > 0,
        ;
        assert((-((-a) / b)) * b == -(((-a) / b) * b)) by (nonlinear_arith);
    }
}

/// For divisors of at least one, the quotient's magnitude never exceeds
/// the dividend's.
pub proof fn lemma_trunc_div_le(a: int, b: int)
    requires
        b >= 1,
    ensures
        a >= 0 ==> 0 <= trunc_div(a, b) <= a,
        a <= 0 ==> a <= trunc_div(a, b) <= 0,
{
    lemma_trunc_div_bound(a, b);
    if a >= 0 {
        assert(trunc_div(a, b) >= 0) by (nonlinear_arith)
            requires
                trunc_div(a, b) * b >= 0 && b >= 1,
        ;
        assert(trunc_div(a, b) <= trunc_div(a, b) * b) by (nonlinear_arith)
            requires
                b >= 1 && trunc_div(a, b) >= 0,
        ;
    } else {
        assert(trunc_div(a, b) <= 0) by (nonlinear_arith)
            requires
                trunc_div(a, b) * b <= 0 && b >= 1,
        ;
        assert(trunc_div(a, b) * b <= trunc_div(a, b)) by (nonlinear_arith)
            requires
                b >= 1 && trunc_div(a, b) <= 0,
        ;
    }
}

/// Truncating division is odd in its dividend: negating the dividend
/// negates the quotient.
pub proof fn lemma_trunc_div_neg(a: int, b: int)
    requires
        b > 0,
    ensures
        trunc_div(-a, b) == -trunc_div(a, b),
{
}

} // verus!
