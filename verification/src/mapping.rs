//! The coordinate mapper.
//!
//! For every output pixel the mapper computes a centered complex coordinate
//! (the image center is `0`, the edges about `±1`), evaluates the expression
//! there, and maps the value back into the source image. A value whose real
//! or imaginary magnitude exceeds the singularity threshold marks the pixel
//! as a fallback; any other coordinate is wrapped back into the image by
//! quadrant reflection — the coordinate is taken modulo twice the extent and
//! folded back by reflection where it lands beyond the extent — and then
//! clamped, the boundary policy this library uses throughout.

use vstd::prelude::*;

use crate::complex::Complex;
use crate::eval::{spec_eval, ComplexFuncs};
use crate::fixed::{
    emod_i128, lemma_tdiv_bound, tdiv, tdiv_i128, HALF_SCALE, SCALE, SINGULARITY_THRESHOLD,
};
use crate::parsing::Expr;

verus! {

/// Half the extent of a dimension of `dim` pixels, in fixed-point units.
pub open spec fn half_units(dim: int) -> int {
    dim * HALF_SCALE
}

/// The centered coordinate of pixel `p` in a dimension of `dim` pixels:
/// `(p - dim/2) / (dim/2)`, carried out in fixed point.
pub open spec fn spec_centered(p: int, dim: int) -> int {
    tdiv((p * SCALE - half_units(dim)) * SCALE, half_units(dim))
}

/// The centered complex coordinate of the output pixel `(x, y)`.
pub open spec fn spec_normalize(x: int, y: int, w: int, h: int) -> Complex {
    Complex { re: spec_centered(x, w) as i64, im: spec_centered(y, h) as i64 }
}

/// A value beyond the threshold on either component marks a singularity.
pub open spec fn spec_singular(v: Complex) -> bool {
    v.re > SINGULARITY_THRESHOLD || v.re < -SINGULARITY_THRESHOLD || v.im > SINGULARITY_THRESHOLD
        || v.im < -SINGULARITY_THRESHOLD
}

/// Map one component of an evaluated value back to source units:
/// `v * (dim/2) + dim/2`.
pub open spec fn spec_map_back(vc: int, dim: int) -> int {
    tdiv(vc * half_units(dim), SCALE as int) + half_units(dim)
}

/// Quadrant wrap-around: extend into `[0, 2 * dim)` by the modulus, fold a
/// coordinate at or beyond the extent back by reflection, and clamp to the
/// last sample position. All in fixed-point units.
pub open spec fn spec_wrap(t: int, dim: int) -> int {
    let limit = dim * SCALE;
    let ext = t % (2 * limit);
    let folded = if ext < limit {
        ext
    } else {
        2 * limit - ext
    };
    if folded > limit - SCALE {
        limit - SCALE
    } else {
        folded
    }
}

/// Where an evaluated value sends a pixel: to the fallback, or to a
/// continuous source coordinate in units, each axis within
/// `[0, (dim-1) * SCALE]`.
#[derive(Clone, Copy, PartialEq, Eq, Structural, Debug)]
pub enum Mapped {
    Singular,
    At { fx: i64, fy: i64 },
}

/// The source location for an evaluated value `v` on a `w` by `h` image.
pub open spec fn spec_map_value(v: Complex, w: int, h: int) -> Mapped {
    if spec_singular(v) {
        Mapped::Singular
    } else {
        Mapped::At {
            fx: spec_wrap(spec_map_back(v.re as int, w), w) as i64,
            fy: spec_wrap(spec_map_back(v.im as int, h), h) as i64,
        }
    }
}

/// The source location of output pixel `(x, y)` under expression `e`.
pub open spec fn spec_map_pixel<F: ComplexFuncs>(
    e: Expr,
    funcs: F,
    w: int,
    h: int,
    x: int,
    y: int,
) -> Mapped {
    spec_map_value(spec_eval(e, spec_normalize(x, y, w, h), funcs), w, h)
}

/// A wrapped coordinate always lands between the first and last sample.
pub proof fn lemma_wrap_range(t: int, dim: int)
    requires
        1 <= dim,
    ensures
        0 <= spec_wrap(t, dim) <= (dim - 1) * SCALE,
{
    let limit = dim * SCALE;
    assert(SCALE <= limit && (dim - 1) * SCALE == limit - SCALE) by (nonlinear_arith)
        requires
            limit == dim * SCALE,
            1 <= dim,
            SCALE == 10_000_000i64,
    ;
    vstd::arithmetic::div_mod::lemma_mod_bound(t, 2 * limit);
}

/// Exec mirror of [`spec_centered`].
pub fn centered(p: u32, dim: u32) -> (r: i64)
    requires
        1 <= dim,
        p < dim,
    ensures
        r as int == spec_centered(p as int, dim as int),
        -SCALE <= r <= SCALE,
{
    proof {
        assert(0 < (dim as int) * (HALF_SCALE as int) <= 21_474_836_475_000_000 && 0 <= (
        p as int) * (SCALE as int) <= 42_949_672_950_000_000) by (nonlinear_arith)
            requires
                1 <= dim <= 4_294_967_295,
                0 <= p <= 4_294_967_295,
                HALF_SCALE == 5_000_000i64,
                SCALE == 10_000_000i64,
        ;
    }
    let c: i128 = dim as i128 * HALF_SCALE as i128;
    let n: i128 = p as i128 * SCALE as i128 - c;
    proof {
        assert(-c <= n <= c) by (nonlinear_arith)
            requires
                c == (dim as int) * (HALF_SCALE as int),
                n == (p as int) * (SCALE as int) - c,
                0 <= p < dim,
                SCALE == 2 * HALF_SCALE,
        ;
        assert(-(SCALE * c) <= n * SCALE <= SCALE * c && SCALE * c == (SCALE as int) * c && n
            * SCALE == n * (SCALE as int)) by (nonlinear_arith)
            requires
                -c <= n <= c,
                SCALE > 0,
        ;
        lemma_tdiv_bound(n as int * SCALE as int, c as int, SCALE as int);
    }
    let cx = tdiv_i128(n * SCALE as i128, c);
    cx as i64
}

/// Exec mirror of [`spec_normalize`].
pub fn normalize(x: u32, y: u32, w: u32, h: u32) -> (r: Complex)
    requires
        1 <= w,
        1 <= h,
        x < w,
        y < h,
    ensures
        r == spec_normalize(x as int, y as int, w as int, h as int),
        r.wf(),
        -SCALE <= r.re <= SCALE,
        -SCALE <= r.im <= SCALE,
{
    Complex { re: centered(x, w), im: centered(y, h) }
}

/// Exec mirror of [`spec_wrap`], on a coordinate already mapped back.
fn wrap(t: i128, dim: u32) -> (r: i64)
    requires
        1 <= dim,
        -1_000_000_000_000_000_000_000_000_000_000i128 <= t
            <= 1_000_000_000_000_000_000_000_000_000_000i128,
    ensures
        r as int == spec_wrap(t as int, dim as int),
        0 <= r <= (dim - 1) * SCALE,
{
    proof {
        assert(10_000_000 <= (dim as int) * (SCALE as int) <= 42_949_672_950_000_000)
            by (nonlinear_arith)
            requires
                1 <= dim <= 4_294_967_295,
                SCALE == 10_000_000i64,
        ;
    }
    let limit: i128 = dim as i128 * SCALE as i128;
    let ext = emod_i128(t, (2 * limit) as u128) as i128;
    let folded = if ext < limit {
        ext
    } else {
        2 * limit - ext
    };
    let clamped = if folded > limit - SCALE as i128 {
        limit - SCALE as i128
    } else {
        folded
    };
    proof {
        assert(limit - SCALE == ((dim - 1) as int) * (SCALE as int)) by (nonlinear_arith)
            requires
                limit == (dim as int) * (SCALE as int),
                dim >= 1,
        ;
    }
    clamped as i64
}

/// Exec mirror of [`spec_map_value`].
pub fn map_value(v: Complex, w: u32, h: u32) -> (r: Mapped)
    requires
        v.wf(),
        1 <= w,
        1 <= h,
    ensures
        r == spec_map_value(v, w as int, h as int),
        r matches Mapped::At { fx, fy } ==> 0 <= fx <= (w - 1) * SCALE && 0 <= fy <= (h - 1)
            * SCALE,
{
    if v.re > SINGULARITY_THRESHOLD || v.re < -SINGULARITY_THRESHOLD
        || v.im > SINGULARITY_THRESHOLD || v.im < -SINGULARITY_THRESHOLD {
        Mapped::Singular
    } else {
        let cw: i128 = w as i128 * HALF_SCALE as i128;
        let ch: i128 = h as i128 * HALF_SCALE as i128;
        proof {
            lemma_map_back_in_bounds(v.re as int, w as int);
            lemma_map_back_in_bounds(v.im as int, h as int);
        }
        let bx = tdiv_i128(v.re as i128 * cw, SCALE as i128) + cw;
        let by = tdiv_i128(v.im as i128 * ch, SCALE as i128) + ch;
        Mapped::At { fx: wrap(bx, w), fy: wrap(by, h) }
    }
}

/// The mapped-back coordinate of a non-singular value stays well inside the
/// wide integer range.
proof fn lemma_map_back_in_bounds(vc: int, dim: int)
    requires
        -SINGULARITY_THRESHOLD <= vc <= SINGULARITY_THRESHOLD,
        1 <= dim <= 0x1_0000_0000,
    ensures
        -1_000_000_000_000_000_000_000_000_000_000 <= tdiv(vc * half_units(dim), SCALE as int)
            + half_units(dim) <= 1_000_000_000_000_000_000_000_000_000_000,
        -1_000_000_000_000_000_000_000_000_000_000 <= vc * half_units(dim)
            <= 1_000_000_000_000_000_000_000_000_000_000,
{
    let k: int = 30_000_000_000_000_000_000_000;
    assert(-(k * SCALE) <= vc * half_units(dim) <= k * SCALE) by (nonlinear_arith)
        requires
            k == 30_000_000_000_000_000_000_000int,
            -SINGULARITY_THRESHOLD <= vc <= SINGULARITY_THRESHOLD,
            1 <= dim <= 0x1_0000_0000,
    ;
    lemma_tdiv_bound(vc * half_units(dim), SCALE as int, k);
}

} // verus!
