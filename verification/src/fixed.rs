//! Fixed-point scalars.
//!
//! A real number `r` is carried as the `i64` value `r * SCALE`, truncated
//! toward zero. All arithmetic saturates at `FIX_MAX` units in either
//! direction, the analogue of the floating-point overflow to infinity in the
//! remapping pipeline: a magnitude beyond `SINGULARITY_THRESHOLD` units is
//! treated as a singularity downstream, so saturated values are always caught
//! there.

use vstd::prelude::*;

use vstd::arithmetic::div_mod::{lemma_fundamental_div_mod, lemma_fundamental_div_mod_converse_mod};

verus! {

/// Number of fixed-point units per integer unit.
pub const SCALE: i64 = 10_000_000;

/// Half of [`SCALE`]: the units in one half, used to center coordinates.
pub const HALF_SCALE: i64 = 5_000_000;

/// Largest magnitude, in units, a fixed-point scalar may take: 10^8 as a real.
pub const FIX_MAX: i64 = 1_000_000_000_000_000;

/// Singularity threshold, in units: 10^6 as a real number.
pub const SINGULARITY_THRESHOLD: i64 = 10_000_000_000_000;

/// A scalar is well formed when it lies in the saturation range.
pub open spec fn fix_wf(x: i64) -> bool {
    -FIX_MAX <= x <= FIX_MAX
}

/// Clamp a mathematical integer into the saturation range.
pub open spec fn sat(x: int) -> i64 {
    if x > FIX_MAX {
        FIX_MAX
    } else if x < -FIX_MAX {
        (-FIX_MAX) as i64
    } else {
        x as i64
    }
}

/// Division truncated toward zero, the behaviour of machine division
/// (`int` division in specifications is Euclidean).
pub open spec fn tdiv(a: int, b: int) -> int
    recommends
        b > 0,
{
    if a >= 0 {
        a / b
    } else {
        -((-a) / b)
    }
}

/// Saturate a wide intermediate value into the fixed-point range.
pub fn sat_i128(x: i128) -> (r: i64)
    ensures
        r == sat(x as int),
{
    if x > FIX_MAX as i128 {
        FIX_MAX
    } else if x < -(FIX_MAX as i128) {
        -FIX_MAX
    } else {
        x as i64
    }
}

/// Truncating division of a wide value by a positive divisor.
pub fn tdiv_i128(n: i128, d: i128) -> (r: i128)
    requires
        d > 0,
        n > i128::MIN,
    ensures
        r == tdiv(n as int, d as int),
        n >= 0 ==> 0 <= r <= n,
        n < 0 ==> n <= r <= 0,
{
    if n >= 0 {
        let q = (n as u128) / (d as u128);
        proof {
            lemma_fundamental_div_mod(n as int, d as int);
            assert(q <= n as u128) by {
                vstd::arithmetic::div_mod::lemma_div_is_ordered_by_denominator(
                    n as int,
                    1,
                    d as int,
                );
                vstd::arithmetic::div_mod::lemma_div_basics(n as int);
            }
        }
        q as i128
    } else {
        let m = (-n) as u128;
        let q = m / (d as u128);
        proof {
            assert(q <= m) by {
                vstd::arithmetic::div_mod::lemma_div_is_ordered_by_denominator(
                    m as int,
                    1,
                    d as int,
                );
                vstd::arithmetic::div_mod::lemma_div_basics(m as int);
            }
        }
        -(q as i128)
    }
}

/// Euclidean remainder of a wide value by a positive modulus: the result is
/// always in `[0, m)`, also for negative `n`.
pub fn emod_i128(n: i128, m: u128) -> (r: u128)
    requires
        m > 0,
        n > i128::MIN,
    ensures
        r as int == (n as int) % (m as int),
        r < m,
{
    if n >= 0 {
        (n as u128) % m
    } else {
        let k = (-n) as u128;
        let r0 = k % m;
        proof {
            lemma_fundamental_div_mod(k as int, m as int);
            vstd::arithmetic::div_mod::lemma_mod_bound(k as int, m as int);
            let q0 = k as int / m as int;
            if r0 == 0 {
                assert(n as int == (-q0) * (m as int) + 0) by (nonlinear_arith)
                    requires
                        k as int == (m as int) * q0 + (r0 as int),
                        r0 == 0,
                        n as int == -(k as int),
                ;
                lemma_fundamental_div_mod_converse_mod(n as int, m as int, -q0, 0);
            } else {
                assert(n as int == (-q0 - 1) * (m as int) + (m as int - r0 as int))
                    by (nonlinear_arith)
                    requires
                        k as int == (m as int) * q0 + (r0 as int),
                        n as int == -(k as int),
                ;
                lemma_fundamental_div_mod_converse_mod(
                    n as int,
                    m as int,
                    -q0 - 1,
                    m as int - r0 as int,
                );
            }
        }
        if r0 == 0 {
            0
        } else {
            m - r0
        }
    }
}

/// Truncating division by `d` of a value bounded by `k * d` is bounded by `k`.
pub proof fn lemma_tdiv_bound(a: int, d: int, k: int)
    requires
        d > 0,
        k >= 0,
        -(k * d) <= a <= k * d,
    ensures
        -k <= tdiv(a, d) <= k,
{
    if a >= 0 {
        vstd::arithmetic::div_mod::lemma_div_is_ordered(0, a, d);
        vstd::arithmetic::div_mod::lemma_div_is_ordered(a, k * d, d);
        vstd::arithmetic::div_mod::lemma_div_multiples_vanish(k, d);
        vstd::arithmetic::div_mod::lemma_div_basics(d);
        assert(k * d == d * k) by (nonlinear_arith);
    } else {
        vstd::arithmetic::div_mod::lemma_div_is_ordered(0, -a, d);
        vstd::arithmetic::div_mod::lemma_div_is_ordered(-a, k * d, d);
        vstd::arithmetic::div_mod::lemma_div_multiples_vanish(k, d);
        vstd::arithmetic::div_mod::lemma_div_basics(d);
        assert(k * d == d * k) by (nonlinear_arith);
    }
}

/// What truncating division forgets: `tdiv(a, d) * d` falls short of `a` by
/// less than `d`, toward zero.
pub proof fn lemma_tdiv_mul_error(a: int, d: int)
    requires
        d > 0,
    ensures
        a >= 0 ==> a - d < tdiv(a, d) * d <= a,
        a < 0 ==> a <= tdiv(a, d) * d < a + d,
{
    if a >= 0 {
        lemma_fundamental_div_mod(a, d);
        vstd::arithmetic::div_mod::lemma_mod_bound(a, d);
        assert((a / d) * d == d * (a / d)) by (nonlinear_arith);
    } else {
        lemma_fundamental_div_mod(-a, d);
        vstd::arithmetic::div_mod::lemma_mod_bound(-a, d);
        assert(tdiv(a, d) == -((-a) / d));
        assert((-((-a) / d)) * d == -(d * ((-a) / d))) by (nonlinear_arith);
    }
}

/// Floor of the square root: the result `r` satisfies `r^2 <= n < (r+1)^2`.
pub fn isqrt(n: u128) -> (r: u64)
    ensures
        (r as int) * (r as int) <= n as int,
        (n as int) < ((r as int) + 1) * ((r as int) + 1),
{
    let mut lo: u128 = 0;
    let mut hi: u128 = 0x1_0000_0000_0000_0000;
    proof {
        assert((hi as int) * (hi as int) > n as int) by (nonlinear_arith)
            requires
                hi == 0x1_0000_0000_0000_0000u128,
                n <= u128::MAX,
        ;
    }
    while hi - lo > 1
        invariant
            lo < hi <= 0x1_0000_0000_0000_0000u128,
            (lo as int) * (lo as int) <= n as int,
            (hi as int) * (hi as int) > n as int,
        decreases hi - lo,
    {
        let mid = lo + (hi - lo) / 2;
        proof {
            assert(mid * mid <= 0xFFFF_FFFF_FFFF_FFFFu128 * 0xFFFF_FFFF_FFFF_FFFFu128)
                by (nonlinear_arith)
                requires
                    mid <= 0xFFFF_FFFF_FFFF_FFFFu128,
            ;
        }
        if mid * mid <= n {
            lo = mid;
        } else {
            hi = mid;
        }
    }
    lo as u64
}

} // verus!
