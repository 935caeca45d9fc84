//! Exact integer fractions: products with a ratio, rounded down.

use vstd::prelude::*;
use vstd::arithmetic::div_mod::{lemma_fundamental_div_mod, lemma_hoist_over_denominator};

verus! {

/// The denominator of a [`Perbill`]: one billion parts make the whole.
pub const BILLION: u32 = 1_000_000_000;

/// `x * n / d` over the integers, rounded down.
pub open spec fn mul_div(x: int, n: int, d: int) -> int {
    (x * n) / d
}

/// A product with a ratio of at most one never exceeds the factor.
pub proof fn lemma_mul_div_bounds(x: int, n: int, d: int)
    requires
        0 <= x,
        0 <= n <= d,
        0 < d,
    ensures
        0 <= mul_div(x, n, d) <= x,
{
    assert(0 <= x * n <= x * d) by (nonlinear_arith)
        requires
            0 <= x,
            0 <= n <= d,
    ;
    assert((x * n) / d <= x && 0 <= (x * n) / d) by (nonlinear_arith)
        requires
            0 <= x * n <= x * d,
            0 < d,
    ;
}

/// With the ratio at one the product is the factor itself.
pub proof fn lemma_mul_div_whole(x: int, d: int)
    requires
        0 < d,
    ensures
        mul_div(x, d, d) == x,
{
    assert((x * d) / d == x) by (nonlinear_arith)
        requires
            0 < d,
    ;
}

/// A ratio of zero gives zero.
pub proof fn lemma_mul_div_zero(x: int, d: int)
    requires
        0 < d,
    ensures
        mul_div(x, 0, d) == 0,
{
    assert(x * 0 == 0) by (nonlinear_arith);
}

/// The product grows with the numerator of the ratio.
pub proof fn lemma_mul_div_monotonic(x: int, n1: int, n2: int, d: int)
    requires
        0 <= x,
        0 <= n1 <= n2,
        0 < d,
    ensures
        mul_div(x, n1, d) <= mul_div(x, n2, d),
{
    assert(x * n1 <= x * n2) by (nonlinear_arith)
        requires
            0 <= x,
            0 <= n1 <= n2,
    ;
    assert((x * n1) / d <= (x * n2) / d) by (nonlinear_arith)
        requires
            x * n1 <= x * n2,
            0 < d,
    ;
}

/// Splitting the factor at a multiple of the denominator leaves the product unchanged.
proof fn lemma_mul_div_split(x: int, n: int, d: int)
    requires
        0 <= x,
        0 <= n,
        0 < d,
    ensures
        mul_div(x, n, d) == (x / d) * n + ((x % d) * n) / d,
{
    let q = x / d;
    let r = x % d;
    lemma_fundamental_div_mod(x, d);
    assert(x * n == r * n + (q * n) * d) by (nonlinear_arith)
        requires
            x == d * q + r,
    ;
    lemma_hoist_over_denominator(r * n, q * n, d as nat);
}

/// Computes `x * n / d`, rounded down, without leaving `u128` on the way.
pub fn mul_div_floor(x: u128, n: u64, d: u64) -> (r: u128)
    requires
        n <= d,
        0 < d,
    ensures
        r == mul_div(x as int, n as int, d as int),
        r <= x,
{
    let wide_n: u128 = n as u128;
    let wide_d: u128 = d as u128;
    let q: u128 = x / wide_d;
    let rem: u128 = x % wide_d;
    proof {
        lemma_mul_div_split(x as int, n as int, d as int);
        lemma_mul_div_bounds(x as int, n as int, d as int);
        lemma_fundamental_div_mod(x as int, d as int);
        assert(0 <= rem * wide_n <= (d - 1) * d) by (nonlinear_arith)
            requires
                0 <= rem < wide_d,
                0 <= wide_n <= wide_d,
                wide_d == d,
        ;
        assert((d - 1) * d < 0x1_0000_0000_0000_0000_0000_0000_0000_0000) by (nonlinear_arith)
            requires
                0 < d <= 0xffff_ffff_ffff_ffff,
        ;
        assert(0 <= q * wide_n <= q * wide_d <= x) by (nonlinear_arith)
            requires
                0 <= q,
                0 <= wide_n <= wide_d,
                x == wide_d * q + rem,
                0 <= rem,
        ;
    }
    q * wide_n + (rem * wide_n) / wide_d
}

/// A fraction between zero and one, counted in parts per billion.
#[derive(Clone, Copy, Debug, PartialEq, Eq)]
pub struct Perbill {
    parts: u32,
}

impl Perbill {
    /// The number of billionths that the fraction stands for.
    pub closed spec fn parts(&self) -> int {
        self.parts as int
    }

    /// The fraction is at most one. This holds of every fraction that a program holds.
    #[verifier::type_invariant]
    pub open spec fn wf(&self) -> bool {
        0 <= self.parts() <= BILLION
    }

    /// What the fraction of `x` is, rounded down.
    pub open spec fn of(&self, x: int) -> int {
        mul_div(x, self.parts(), BILLION as int)
    }

    /// The fraction of so many billionths; more than a billion counts as one.
    pub fn from_parts(parts: u32) -> (p: Perbill)
        ensures
            p.wf(),
            p.parts() == if parts <= BILLION { parts as int } else { BILLION as int },
    {
        if parts <= BILLION {
            Perbill { parts }
        } else {
            Perbill { parts: BILLION }
        }
    }

    /// The fraction of so many hundredths; more than a hundred counts as one.
    pub fn from_percent(percent: u32) -> (p: Perbill)
        ensures
            p.wf(),
            p.parts() == if percent <= 100 { percent * 10_000_000 } else { BILLION as int },
    {
        if percent <= 100 {
            Perbill { parts: percent * 10_000_000 }
        } else {
            Perbill { parts: BILLION }
        }
    }

    /// The number of billionths.
    pub fn deconstruct(&self) -> (parts: u32)
        ensures
            parts == self.parts(),
    {
        self.parts
    }

    /// The fraction of `x`, rounded down.
    pub fn mul_floor(&self, x: u128) -> (r: u128)
        ensures
            self.wf(),
            r == self.of(x as int),
            r <= x,
    {
        proof {
            use_type_invariant(self);
        }
        mul_div_floor(x, self.parts as u64, BILLION as u64)
    }

    /// Whether `count` out of `whole` is at least this fraction.
    pub open spec fn reached_by(&self, count: int, whole: int) -> bool {
        count * BILLION >= self.parts() * whole
    }

    /// Tells whether `count` out of `whole` is at least this fraction.
    pub fn is_reached_by(&self, count: u64, whole: u64) -> (reached: bool)
        ensures
            self.wf(),
            reached == self.reached_by(count as int, whole as int),
    {
        proof {
            use_type_invariant(self);
        }
        let lhs: u128 = count as u128;
        let rhs: u128 = whole as u128;
        let parts: u128 = self.parts as u128;
        let billion: u128 = BILLION as u128;
        proof {
            assert(lhs * billion <= 0xffff_ffff_ffff_ffff * 1_000_000_000) by (nonlinear_arith)
                requires
                    0 <= lhs <= 0xffff_ffff_ffff_ffff,
                    billion == 1_000_000_000,
            ;
            assert(parts * rhs <= 1_000_000_000 * 0xffff_ffff_ffff_ffff) by (nonlinear_arith)
                requires
                    0 <= rhs <= 0xffff_ffff_ffff_ffff,
                    0 <= parts <= 1_000_000_000,
            ;
        }
        lhs * billion >= parts * rhs
    }
}

} // verus!
