use vstd::prelude::*;

verus! {

use vstd::arithmetic::div_mod::{
    lemma_fundamental_div_mod,
    lemma_fundamental_div_mod_converse_div,
    lemma_mod_division_less_than_divisor,
    lemma_div_nonincreasing,
};
use vstd::arithmetic::mul::{lemma_mul_inequality, lemma_mul_upper_bound};

/// One whole unit of the fixed-point scale: every scalar carries six decimal places.
pub const SCALE: i64 = 1_000_000;

/// Largest magnitude a scalar may take. A computation whose result would leave
/// this window is treated as degenerate by the geometry (it reports a miss),
/// the way overflowing float arithmetic dissolves into a missed intersection.
pub const LIM: i64 = 1_000_000_000_000_000_000;

/// A scalar that the geometry is willing to keep working with.
pub open spec fn in_lim(v: int) -> bool {
    -(LIM as int) <= v <= LIM as int
}

/// A product of two scalars bounded by `b` stays within `b * b`.
pub proof fn lemma_mul_bounds(x: int, y: int, b: int)
    requires
        0 <= b,
        -b <= x <= b,
        -b <= y <= b,
    ensures
        -(b * b) <= x * y <= b * b,
{
    assert(-(b * b) <= x * y <= b * b) by (nonlinear_arith)
        requires
            0 <= b,
            -b <= x <= b,
            -b <= y <= b,
    ;
}

/// Floor division by a positive divisor, on 128-bit intermediates.
/// Spec-level `/` on `int` is Euclidean, which for a positive divisor is
/// exactly floor division; this function realises it for signed values.
pub fn div_floor(a: i128, b: i128) -> (q: i128)
    requires
        0 < b,
        i128::MIN < a,
    ensures
        q == a as int / b as int,
{
    if a >= 0 {
        let q0: u128 = (a as u128) / (b as u128);
        proof {
            lemma_div_nonincreasing(a as int, b as int);
        }
        q0 as i128
    } else {
        let m: u128 = (-a) as u128;
        let q0: u128 = m / (b as u128);
        let r0: u128 = m % (b as u128);
        proof {
            lemma_div_nonincreasing(m as int, b as int);
            lemma_mod_division_less_than_divisor(m as int, b as int);
            lemma_fundamental_div_mod(m as int, b as int);
        }
        if r0 == 0 {
            proof {
                assert(a as int == (-(q0 as int)) * (b as int) + 0) by (nonlinear_arith)
                    requires
                        m as int == (b as int) * (q0 as int) + (r0 as int),
                        m as int == -(a as int),
                        r0 == 0,
                ;
                lemma_fundamental_div_mod_converse_div(a as int, b as int, -(q0 as int), 0);
            }
            -(q0 as i128)
        } else {
            proof {
                assert(a as int == (-(q0 as int) - 1) * (b as int) + (b as int - r0 as int))
                    by (nonlinear_arith)
                    requires
                        m as int == (b as int) * (q0 as int) + (r0 as int),
                        m as int == -(a as int),
                ;
                lemma_fundamental_div_mod_converse_div(
                    a as int,
                    b as int,
                    -(q0 as int) - 1,
                    b as int - r0 as int,
                );
            }
            -(q0 as i128) - 1
        }
    }
}

/// Truncating division by a positive divisor: the quotient rounds toward
/// zero, so negating the dividend negates the quotient exactly.
pub open spec fn tdiv(a: int, b: int) -> int {
    if a >= 0 {
        a / b
    } else {
        -((-a) / b)
    }
}

/// Truncating division on 128-bit intermediates; realises `tdiv`.
pub fn div_trunc(a: i128, b: i128) -> (q: i128)
    requires
        0 < b,
        i128::MIN < a,
    ensures
        q == tdiv(a as int, b as int),
{
    if a >= 0 {
        let q0: u128 = (a as u128) / (b as u128);
        proof {
            lemma_div_nonincreasing(a as int, b as int);
        }
        q0 as i128
    } else {
        let m: u128 = (-a) as u128;
        let q0: u128 = m / (b as u128);
        proof {
            lemma_div_nonincreasing(m as int, b as int);
        }
        -(q0 as i128)
    }
}

/// Negating the dividend negates a truncating quotient.
pub proof fn lemma_tdiv_neg(a: int, b: int)
    requires
        0 < b,
    ensures
        tdiv(-a, b) == -tdiv(a, b),
{
    if a == 0 {
        assert(0int / b == 0) by {
            vstd::arithmetic::div_mod::lemma_div_of0(b);
        }
    }
}

/// Euclidean remainder by a positive divisor: the result always lies in `[0, b)`.
pub fn mod_floor(a: i128, b: i128) -> (r: i128)
    requires
        0 < b,
        -(i128::MAX / 2) <= a <= i128::MAX / 2,
        b <= i128::MAX / 2,
    ensures
        r == a as int % b as int,
{
    let q = div_floor(a, b);
    proof {
        lemma_fundamental_div_mod(a as int, b as int);
        lemma_mod_division_less_than_divisor(a as int, b as int);
    }
    a - b * q
}

/// The integer square root, defined by counting up; `lemma_sqrt_floor` gives
/// its characterisation.
pub open spec fn sqrt_floor(n: int) -> int
    decreases n,
{
    if n <= 0 {
        0
    } else {
        let r = sqrt_floor(n - 1);
        if (r + 1) * (r + 1) <= n {
            r + 1
        } else {
            r
        }
    }
}

/// `sqrt_floor(n)` is the largest integer whose square does not exceed `n`.
pub proof fn lemma_sqrt_floor(n: int)
    requires
        0 <= n,
    ensures
        0 <= sqrt_floor(n),
        sqrt_floor(n) * sqrt_floor(n) <= n,
        n < (sqrt_floor(n) + 1) * (sqrt_floor(n) + 1),
    decreases n,
{
    if n > 0 {
        lemma_sqrt_floor(n - 1);
        let r = sqrt_floor(n - 1);
        if (r + 1) * (r + 1) <= n {
            assert(sqrt_floor(n) == r + 1);
            assert(n <= (r + 1) * (r + 1));
            assert((r + 1) * (r + 1) < ((r + 1) + 1) * ((r + 1) + 1)) by (nonlinear_arith)
                requires
                    0 <= r,
            ;
        } else {
            assert(sqrt_floor(n) == r);
        }
    }
}

/// Any integer bracketing `n` between consecutive squares is its square root.
pub proof fn lemma_sqrt_floor_unique(n: int, r: int)
    requires
        0 <= r,
        r * r <= n,
        n < (r + 1) * (r + 1),
    ensures
        r == sqrt_floor(n),
{
    lemma_sqrt_floor(n);
    let s = sqrt_floor(n);
    if r < s {
        lemma_mul_inequality(r + 1, s, r + 1);
        lemma_mul_inequality(r + 1, s, s);
        assert(false);
    }
    if s < r {
        lemma_mul_inequality(s + 1, r, s + 1);
        lemma_mul_inequality(s + 1, r, r);
        assert(false);
    }
}

/// Integer square root by bisection.
pub fn isqrt(n: u128) -> (r: u128)
    requires
        n < 0x4000000000000000u128 * 0x4000000000000000u128,
    ensures
        r == sqrt_floor(n as int),
{
    let mut lo: u128 = 0;
    let mut hi: u128 = 0x4000000000000000;
    while hi - lo > 1
        invariant
            lo < hi,
            hi <= 0x4000000000000000u128,
            lo * lo <= n,
            n < hi * hi,
        decreases hi - lo,
    {
        let mid = lo + (hi - lo) / 2;
        proof {
            lemma_mul_upper_bound(mid as int, 0x4000000000000000, mid as int, 0x4000000000000000);
        }
        if mid * mid <= n {
            lo = mid;
        } else {
            hi = mid;
        }
    }
    proof {
        lemma_sqrt_floor_unique(n as int, lo as int);
    }
    lo
}

/// The square root of a non-negative fixed-point scalar, in the same scale.
pub open spec fn s_sqrt(a: int) -> int {
    sqrt_floor(a * SCALE)
}

/// Fixed-point square root; the result of `sqrt_fx(a)` squares back to about `a`.
pub fn sqrt_fx(a: i64) -> (r: i64)
    requires
        0 <= a <= LIM,
    ensures
        r == s_sqrt(a as int),
        0 <= r <= 1_000_000_000_000i64,
{
    let p: u128 = (a as u128) * (SCALE as u128);
    proof {
        lemma_mul_inequality(a as int, LIM as int, SCALE as int);
    }
    let r = isqrt(p);
    proof {
        lemma_sqrt_floor(p as int);
        if r > 1_000_000_000_000 {
            lemma_mul_inequality(1_000_000_000_001, r as int, 1_000_000_000_001);
            lemma_mul_inequality(1_000_000_000_001, r as int, r as int);
            assert(false);
        }
    }
    r as i64
}

/// Floored remainder: the result lies in `[0, n)` whatever the sign of `m`,
/// which is what makes the checkerboard pattern periodic across the origin.
pub fn fmod(m: i64, n: i64) -> (r: i64)
    requires
        0 < n,
    ensures
        r == m as int % n as int,
{
    let r = mod_floor(m as i128, n as i128);
    proof {
        lemma_mod_division_less_than_divisor(m as int, n as int);
    }
    r as i64
}

/// Fixed-point division `a / b` for positive `b`, or nothing if the quotient
/// leaves the window.
pub open spec fn s_div_fx(a: i64, b: i64) -> Option<i64> {
    let q = (a as int * SCALE as int) / (b as int);
    if in_lim(q) {
        Some(q as i64)
    } else {
        None
    }
}

pub(crate) fn c_div_fx(a: i64, b: i64) -> (r: Option<i64>)
    requires
        in_lim(a as int),
        0 < b,
    ensures
        r == s_div_fx(a, b),
{
    proof {
        lemma_mul_bounds(a as int, SCALE as int, LIM as int);
    }
    let q = div_floor((a as i128) * (SCALE as i128), b as i128);
    let lim = LIM as i128;
    if -lim <= q && q <= lim {
        Some(q as i64)
    } else {
        None
    }
}

/// What `clamp01` returns: the scalar pinned to the unit interval of the scale.
pub open spec fn s_clamp01(v: int) -> int {
    if v < 0 {
        0
    } else if v > SCALE as int {
        SCALE as int
    } else {
        v
    }
}

/// Pins a scalar to `[0, 1]` in fixed-point units.
pub fn clamp01(v: i64) -> (r: i64)
    ensures
        r == s_clamp01(v as int),
{
    if v < 0 {
        0
    } else if v > SCALE {
        SCALE
    } else {
        v
    }
}

/// What `mix` returns: the linear blend `a * (1 - t) + b * t` in fixed point.
pub open spec fn s_mix(a: int, b: int, t: int) -> int {
    (a * (SCALE - t) + b * t) / (SCALE as int)
}

/// Affine interpolation between `a` and `b` by a factor `t`: below zero or
/// beyond one whole unit it extrapolates, as the formula does.
pub fn mix(a: i64, b: i64, t: i64) -> (r: i64)
    requires
        in_lim(a as int),
        in_lim(b as int),
        in_lim(t as int),
        in_lim(s_mix(a as int, b as int, t as int)),
    ensures
        r == s_mix(a as int, b as int, t as int),
{
    proof {
        lemma_mul_bounds(a as int, (SCALE - t) as int, 2 * LIM as int);
        lemma_mul_bounds(b as int, t as int, 2 * LIM as int);
        assert((2 * LIM as int) * (2 * LIM as int)
            == 4_000_000_000_000_000_000_000_000_000_000_000_000int) by (nonlinear_arith);
    }
    let p: i128 = (a as i128) * ((SCALE - t) as i128) + (b as i128) * (t as i128);
    let q = div_floor(p, SCALE as i128);
    q as i64
}

} // verus!
