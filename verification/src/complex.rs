//! Fixed-point complex numbers and their arithmetic.
//!
//! Every operation truncates toward zero where it divides by the scale, as
//! machine arithmetic does, and saturates its components at `FIX_MAX`.
//! Division by exact zero yields the saturated value on both components, the
//! analogue of the floating-point infinity, which the remapping pipeline
//! later treats as a singularity.

use vstd::prelude::*;

use crate::fixed::{fix_wf, sat, sat_i128, tdiv, tdiv_i128, isqrt, FIX_MAX, SCALE};

verus! {

/// A complex number with fixed-point real and imaginary parts.
#[derive(Clone, Copy, PartialEq, Eq, Structural, Debug)]
pub struct Complex {
    pub re: i64,
    pub im: i64,
}

impl Complex {
    /// Both components lie in the saturation range.
    pub open spec fn wf(self) -> bool {
        fix_wf(self.re) && fix_wf(self.im)
    }

    pub fn new(re: i64, im: i64) -> (r: Complex)
        ensures
            r == (Complex { re, im }),
    {
        Complex { re, im }
    }
}

/// The complex number one.
pub open spec fn spec_one() -> Complex {
    Complex { re: SCALE, im: 0 }
}

/// The complex number zero.
pub open spec fn spec_zero() -> Complex {
    Complex { re: 0, im: 0 }
}

/// Componentwise sum, saturated.
pub open spec fn spec_add(a: Complex, b: Complex) -> Complex {
    Complex { re: sat(a.re + b.re), im: sat(a.im + b.im) }
}

/// Componentwise difference, saturated.
pub open spec fn spec_sub(a: Complex, b: Complex) -> Complex {
    Complex { re: sat(a.re - b.re), im: sat(a.im - b.im) }
}

/// Componentwise negation, saturated.
pub open spec fn spec_neg(a: Complex) -> Complex {
    Complex { re: sat(-a.re), im: sat(-a.im) }
}

/// Complex conjugate.
pub open spec fn spec_conj(a: Complex) -> Complex {
    Complex { re: sat(a.re as int), im: sat(-a.im) }
}

/// Complex product, each component truncated at the scale and saturated.
pub open spec fn spec_mul(a: Complex, b: Complex) -> Complex {
    Complex {
        re: sat(tdiv(a.re * b.re - a.im * b.im, SCALE as int)),
        im: sat(tdiv(a.re * b.im + a.im * b.re, SCALE as int)),
    }
}

/// Squared magnitude in units of `SCALE^2`, as a mathematical integer.
pub open spec fn spec_norm_sqr(a: Complex) -> int {
    a.re * a.re + a.im * a.im
}

/// Complex quotient `a * conj(b) / |b|^2`; both components saturate when the
/// divisor is exactly zero.
pub open spec fn spec_div(a: Complex, b: Complex) -> Complex {
    let den = spec_norm_sqr(b);
    if den == 0 {
        Complex { re: FIX_MAX, im: FIX_MAX }
    } else {
        Complex {
            re: sat(tdiv((a.re * b.re + a.im * b.im) * SCALE, den)),
            im: sat(tdiv((a.im * b.re - a.re * b.im) * SCALE, den)),
        }
    }
}

/// The nonnegative integer whose square is the floor of the square root.
pub open spec fn floor_sqrt(n: int) -> int {
    choose|r: int| 0 <= r && #[trigger] (r * r) <= n && n < (r + 1) * (r + 1)
}

/// Magnitude as a real (zero imaginary part), rounded down to whole units.
pub open spec fn spec_abs(a: Complex) -> Complex {
    Complex { re: sat(floor_sqrt(spec_norm_sqr(a))), im: 0 }
}

/// `a` raised to the nonnegative integer power `n` by repeated products.
pub open spec fn spec_pow_uint(a: Complex, n: nat) -> Complex
    decreases n,
{
    if n == 0 {
        spec_one()
    } else {
        spec_mul(spec_pow_uint(a, (n - 1) as nat), a)
    }
}

/// Any value that satisfies the floor-square-root bounds is the unique one
/// the specification names.
pub proof fn lemma_floor_sqrt(n: int, r: int)
    requires
        0 <= r,
        r * r <= n,
        n < (r + 1) * (r + 1),
    ensures
        floor_sqrt(n) == r,
{
    assert(exists|q: int| 0 <= q && #[trigger] (q * q) <= n && n < (q + 1) * (q + 1)) by {
        assert(0 <= r && r * r <= n && n < (r + 1) * (r + 1));
    }
    let q = floor_sqrt(n);
    assert(q == r) by (nonlinear_arith)
        requires
            0 <= r,
            r * r <= n,
            n < (r + 1) * (r + 1),
            0 <= q,
            q * q <= n,
            n < (q + 1) * (q + 1),
    ;
}

pub fn cadd(a: Complex, b: Complex) -> (r: Complex)
    ensures
        r == spec_add(a, b),
        r.wf(),
{
    Complex { re: sat_i128(a.re as i128 + b.re as i128), im: sat_i128(a.im as i128 + b.im as i128) }
}

pub fn csub(a: Complex, b: Complex) -> (r: Complex)
    ensures
        r == spec_sub(a, b),
        r.wf(),
{
    Complex { re: sat_i128(a.re as i128 - b.re as i128), im: sat_i128(a.im as i128 - b.im as i128) }
}

pub fn cneg(a: Complex) -> (r: Complex)
    ensures
        r == spec_neg(a),
        r.wf(),
{
    Complex { re: sat_i128(-(a.re as i128)), im: sat_i128(-(a.im as i128)) }
}

pub fn cconj(a: Complex) -> (r: Complex)
    ensures
        r == spec_conj(a),
        r.wf(),
{
    Complex { re: sat_i128(a.re as i128), im: sat_i128(-(a.im as i128)) }
}

pub fn cmul(a: Complex, b: Complex) -> (r: Complex)
    requires
        a.wf(),
        b.wf(),
    ensures
        r == spec_mul(a, b),
        r.wf(),
{
    proof {
        lemma_mul_bound(a.re as int, b.re as int);
        lemma_mul_bound(a.im as int, b.im as int);
        lemma_mul_bound(a.re as int, b.im as int);
        lemma_mul_bound(a.im as int, b.re as int);
    }
    let pre = a.re as i128 * b.re as i128 - a.im as i128 * b.im as i128;
    let pim = a.re as i128 * b.im as i128 + a.im as i128 * b.re as i128;
    Complex {
        re: sat_i128(tdiv_i128(pre, SCALE as i128)),
        im: sat_i128(tdiv_i128(pim, SCALE as i128)),
    }
}

pub fn cdiv(a: Complex, b: Complex) -> (r: Complex)
    requires
        a.wf(),
        b.wf(),
    ensures
        r == spec_div(a, b),
        r.wf(),
{
    proof {
        lemma_mul_bound(b.re as int, b.re as int);
        lemma_mul_bound(b.im as int, b.im as int);
        lemma_mul_bound(a.re as int, b.re as int);
        lemma_mul_bound(a.im as int, b.im as int);
        lemma_mul_bound(a.im as int, b.re as int);
        lemma_mul_bound(a.re as int, b.im as int);
        lemma_sq_nonneg(b.re as int);
        lemma_sq_nonneg(b.im as int);
    }
    let den = b.re as i128 * b.re as i128 + b.im as i128 * b.im as i128;
    if den == 0 {
        Complex { re: FIX_MAX, im: FIX_MAX }
    } else {
        let sre = a.re as i128 * b.re as i128 + a.im as i128 * b.im as i128;
        let sim = a.im as i128 * b.re as i128 - a.re as i128 * b.im as i128;
        assert(-2_000_000_000_000_000_000_000_000_000_000i128 <= sre
            <= 2_000_000_000_000_000_000_000_000_000_000i128);
        assert(-2_000_000_000_000_000_000_000_000_000_000i128 <= sim
            <= 2_000_000_000_000_000_000_000_000_000_000i128);
        proof {
            assert(-20_000_000_000_000_000_000_000_000_000_000_000_000i128 <= sre * (
            SCALE as i128) <= 20_000_000_000_000_000_000_000_000_000_000_000_000i128)
                by (nonlinear_arith)
                requires
                    -2_000_000_000_000_000_000_000_000_000_000i128 <= sre
                        <= 2_000_000_000_000_000_000_000_000_000_000i128,
            ;
            assert(-20_000_000_000_000_000_000_000_000_000_000_000_000i128 <= sim * (
            SCALE as i128) <= 20_000_000_000_000_000_000_000_000_000_000_000_000i128)
                by (nonlinear_arith)
                requires
                    -2_000_000_000_000_000_000_000_000_000_000i128 <= sim
                        <= 2_000_000_000_000_000_000_000_000_000_000i128,
            ;
        }
        let nre = sre * SCALE as i128;
        let nim = sim * SCALE as i128;
        Complex { re: sat_i128(tdiv_i128(nre, den)), im: sat_i128(tdiv_i128(nim, den)) }
    }
}

pub fn cabs(a: Complex) -> (r: Complex)
    requires
        a.wf(),
    ensures
        r == spec_abs(a),
        r.wf(),
{
    proof {
        lemma_mul_bound(a.re as int, a.re as int);
        lemma_mul_bound(a.im as int, a.im as int);
        lemma_sq_nonneg(a.re as int);
        lemma_sq_nonneg(a.im as int);
    }
    let n = a.re as i128 * a.re as i128 + a.im as i128 * a.im as i128;
    let s = isqrt(n as u128);
    proof {
        lemma_floor_sqrt(n as int, s as int);
    }
    Complex { re: sat_i128(s as i128), im: 0 }
}

pub fn cpow_uint(a: Complex, n: u64) -> (r: Complex)
    requires
        a.wf(),
    ensures
        r == spec_pow_uint(a, n as nat),
        r.wf(),
{
    let mut acc = Complex { re: SCALE, im: 0 };
    let mut i: u64 = 0;
    while i < n
        invariant
            0 <= i <= n,
            a.wf(),
            acc.wf(),
            acc == spec_pow_uint(a, i as nat),
        decreases n - i,
    {
        acc = cmul(acc, a);
        i = i + 1;
    }
    acc
}

/// The product of two in-range scalars stays well inside the wide type.
pub proof fn lemma_mul_bound(a: int, b: int)
    requires
        -FIX_MAX <= a <= FIX_MAX,
        -FIX_MAX <= b <= FIX_MAX,
    ensures
        -(FIX_MAX as int) * (FIX_MAX as int) <= a * b <= (FIX_MAX as int) * (FIX_MAX as int),
{
    assert(-(FIX_MAX as int) * (FIX_MAX as int) <= a * b <= (FIX_MAX as int) * (FIX_MAX as int))
        by (nonlinear_arith)
        requires
            -FIX_MAX <= a <= FIX_MAX,
            -FIX_MAX <= b <= FIX_MAX,
    ;
}

proof fn lemma_sq_nonneg(a: int)
    ensures
        a * a >= 0,
{
    assert(a * a >= 0) by (nonlinear_arith);
}

} // verus!
