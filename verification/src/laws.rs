//! The library's global guarantees, stated and proved once for all inputs.
//!
//! Each public proof function here is a law of the pipeline: what every
//! caller may rely on, over the same spec functions the executable code is
//! verified against.

use vstd::prelude::*;

use vstd::arithmetic::div_mod::{
    lemma_fundamental_div_mod_converse_div, lemma_fundamental_div_mod_converse_mod,
    lemma_small_mod,
};

use crate::complex::Complex;
use crate::eval::{spec_eval, ComplexFuncs};
use crate::fixed::{
    lemma_tdiv_bound, lemma_tdiv_mul_error, tdiv, HALF_SCALE, SCALE, SINGULARITY_THRESHOLD,
};
use crate::holo::{lemma_row_major, spec_lookup_entry, spec_nearest, FALLBACK_INDEX, MAX_DIM};
use crate::interpolation::{lemma_lerp_in_range, spec_channel, spec_lerp, spec_sample};
use crate::mapping::{
    half_units, spec_centered, spec_map_back, spec_map_pixel, spec_normalize, spec_singular,
    spec_wrap, Mapped,
};
use crate::parsing::Expr;
use crate::transform::spec_output_channel;

verus! {

/// How far, in fixed-point units, the round trip from a pixel through its
/// centered coordinate and back may drift: below half a pixel, so the
/// nearest-sample table recovers the pixel exactly, and small enough that a
/// bilinear blend moves each channel by at most one level.
pub const ROUND_TRIP_DRIFT: i64 = 32769;

/// A centered coordinate never leaves `[-1, 1]` (in units: `SCALE`), so the
/// identity map never trips the singularity threshold.
pub proof fn lemma_centered_in_range(p: int, dim: int)
    requires
        1 <= dim <= 0x1_0000_0000,
        0 <= p < dim,
    ensures
        -SCALE <= spec_centered(p, dim) <= SCALE,
        -SINGULARITY_THRESHOLD <= spec_centered(p, dim) <= SINGULARITY_THRESHOLD,
{
    let c = half_units(dim);
    let n = p * SCALE - c;
    assert(c > 0 && -c <= n <= c && -(SCALE * c) <= n * SCALE <= SCALE * c && n * SCALE == n * (
    SCALE as int)) by (nonlinear_arith)
        requires
            c == dim * HALF_SCALE,
            n == p * SCALE - c,
            0 <= p < dim,
            SCALE == 2 * HALF_SCALE,
            SCALE == 10_000_000i64,
    ;
    lemma_tdiv_bound(n * SCALE, c, SCALE as int);
}

/// The mapped-back coordinate of the identity stays within
/// [`ROUND_TRIP_DRIFT`] units of the pixel it came from, after the wrap.
proof fn lemma_identity_axis(p: int, dim: int)
    requires
        1 <= dim <= MAX_DIM,
        0 <= p < dim,
    ensures
        ({
            let fx = spec_wrap(spec_map_back(spec_centered(p, dim), dim), dim);
            0 <= fx <= (dim - 1) * SCALE && p * SCALE - ROUND_TRIP_DRIFT < fx && fx < p * SCALE
                + ROUND_TRIP_DRIFT
        }),
{
    let c = half_units(dim);
    let n = p * SCALE - c;
    assert(HALF_SCALE <= c <= 65535 * HALF_SCALE && -c <= n <= c) by (nonlinear_arith)
        requires
            c == dim * HALF_SCALE,
            n == p * SCALE - c,
            0 <= p < dim <= 65535,
            SCALE == 2 * HALF_SCALE,
            SCALE == 10_000_000i64,
    ;
    let cx = spec_centered(p, dim);
    assert(cx == tdiv(n * SCALE, c));
    lemma_tdiv_mul_error(n * SCALE, c);
    // |cx * c - n * SCALE| < c
    assert(n * SCALE - c < cx * c && cx * c < n * SCALE + c) by (nonlinear_arith)
        requires
            c > 0,
            n * SCALE >= 0 ==> n * SCALE - c < tdiv(n * SCALE, c) * c <= n * SCALE,
            n * SCALE < 0 ==> n * SCALE <= tdiv(n * SCALE, c) * c < n * SCALE + c,
            cx == tdiv(n * SCALE, c),
    ;
    let t2 = tdiv(cx * c, SCALE as int);
    lemma_tdiv_mul_error(cx * c, SCALE as int);
    // |t2 * SCALE - cx * c| < SCALE, so |t2 - n| * SCALE < SCALE + c
    assert(n - ROUND_TRIP_DRIFT < t2 && t2 < n + ROUND_TRIP_DRIFT) by (nonlinear_arith)
        requires
            n * SCALE - c < cx * c && cx * c < n * SCALE + c,
            cx * c >= 0 ==> cx * c - SCALE < t2 * SCALE <= cx * c,
            cx * c < 0 ==> cx * c <= t2 * SCALE < cx * c + SCALE,
            c <= 65535 * HALF_SCALE,
            SCALE == 10_000_000i64,
            HALF_SCALE == 5_000_000i64,
            ROUND_TRIP_DRIFT == 32769i64,
    ;
    let back = spec_map_back(cx, dim);
    assert(back == t2 + c);
    // back is within the drift of p * SCALE
    assert(p * SCALE - ROUND_TRIP_DRIFT < back && back < p * SCALE + ROUND_TRIP_DRIFT);
    let limit = dim * SCALE;
    assert(SCALE <= limit && (dim - 1) * SCALE == limit - SCALE && p * SCALE <= limit - SCALE && 0
        <= p * SCALE) by (nonlinear_arith)
        requires
            limit == dim * SCALE,
            1 <= dim,
            0 <= p < dim,
            SCALE == 10_000_000i64,
    ;
    if 0 <= back <= limit - SCALE {
        lemma_small_mod(back as nat, (2 * limit) as nat);
        assert(spec_wrap(back, dim) == back);
    } else if back < 0 {
        // only the leftmost pixel can map below zero; it reflects to |back|
        assert(p == 0) by (nonlinear_arith)
            requires
                p * SCALE - ROUND_TRIP_DRIFT < back,
                back < 0,
                0 <= p,
                SCALE == 10_000_000i64,
                ROUND_TRIP_DRIFT == 32769i64,
        ;
        lemma_fundamental_div_mod_converse_mod(back, 2 * limit, -1, back + 2 * limit);
        let ext = back % (2 * limit);
        assert(ext == back + 2 * limit);
        let folded = 2 * limit - ext;
        assert(folded == -back);
        if folded > limit - SCALE {
            assert(spec_wrap(back, dim) == limit - SCALE);
            assert(limit - SCALE < ROUND_TRIP_DRIFT);
        } else {
            assert(spec_wrap(back, dim) == -back);
        }
    } else {
        // only the rightmost pixel can map beyond the last sample; the clamp
        // returns it there
        assert(back > limit - SCALE);
        assert(back < limit) by (nonlinear_arith)
            requires
                back < p * SCALE + ROUND_TRIP_DRIFT,
                p * SCALE <= limit - SCALE,
                SCALE == 10_000_000i64,
                ROUND_TRIP_DRIFT == 32769i64,
        ;
        assert(p * SCALE == limit - SCALE) by (nonlinear_arith)
            requires
                back > limit - SCALE,
                back < p * SCALE + ROUND_TRIP_DRIFT,
                p * SCALE <= limit - SCALE,
                limit == dim * SCALE,
                0 <= p < dim,
                SCALE == 10_000_000i64,
                ROUND_TRIP_DRIFT == 32769i64,
        ;
        lemma_small_mod(back as nat, (2 * limit) as nat);
        assert(spec_wrap(back, dim) == limit - SCALE);
    }
}

/// A blend whose weight is nearly zero sits on its first argument.
proof fn lemma_lerp_anchor_low(a: int, b: int, wgt: int)
    requires
        0 <= a <= 255,
        0 <= b <= 255,
        0 <= wgt < ROUND_TRIP_DRIFT,
    ensures
        a - 1 <= spec_lerp(a, b, wgt) <= a,
{
    let t = wgt * (b - a);
    assert(-SCALE < t && t < SCALE && (SCALE - wgt) * a + wgt * b == SCALE * a + t)
        by (nonlinear_arith)
        requires
            t == wgt * (b - a),
            0 <= a <= 255,
            0 <= b <= 255,
            0 <= wgt < ROUND_TRIP_DRIFT,
            ROUND_TRIP_DRIFT == 32769i64,
            SCALE == 10_000_000i64,
    ;
    if t >= 0 {
        lemma_fundamental_div_mod_converse_div(SCALE * a + t, SCALE as int, a, t);
    } else {
        lemma_fundamental_div_mod_converse_div(SCALE * a + t, SCALE as int, a - 1, SCALE + t);
        assert(SCALE * a + t == (a - 1) * SCALE + (SCALE + t)) by (nonlinear_arith);
    }
    assert(SCALE * a + t == a * SCALE + t) by (nonlinear_arith);
}

/// A blend whose weight is nearly one sits on its second argument.
proof fn lemma_lerp_anchor_high(a: int, b: int, wgt: int)
    requires
        0 <= a <= 255,
        0 <= b <= 255,
        SCALE - ROUND_TRIP_DRIFT < wgt < SCALE,
    ensures
        b - 1 <= spec_lerp(a, b, wgt) <= b,
{
    assert((SCALE - wgt) * a + wgt * b == (SCALE - (SCALE - wgt)) * b + (SCALE - wgt) * a)
        by (nonlinear_arith);
    lemma_lerp_anchor_low(b, a, SCALE - wgt);
    assert(spec_lerp(a, b, wgt) == spec_lerp(b, a, SCALE - wgt));
}

/// A bilinear sample taken within the drift of pixel `(x, y)` stays within
/// two levels of that pixel's channel.
proof fn lemma_sample_anchor(
    pix: Seq<u8>,
    w: int,
    h: int,
    fx: int,
    fy: int,
    x: int,
    y: int,
    ch: int,
)
    requires
        1 <= w,
        1 <= h,
        0 <= x < w,
        0 <= y < h,
        0 <= ch < 3,
        0 <= fx <= (w - 1) * SCALE,
        0 <= fy <= (h - 1) * SCALE,
        x * SCALE - ROUND_TRIP_DRIFT < fx && fx < x * SCALE + ROUND_TRIP_DRIFT,
        y * SCALE - ROUND_TRIP_DRIFT < fy && fy < y * SCALE + ROUND_TRIP_DRIFT,
    ensures
        ({
            let o = spec_sample(pix, w, h, fx, fy, ch);
            let p = spec_channel(pix, w, x, y, ch);
            p - 2 <= o <= p
        }),
{
    let x0 = fx / (SCALE as int);
    let y0 = fy / (SCALE as int);
    let wx = fx % (SCALE as int);
    let wy = fy % (SCALE as int);
    // The whole part of the coordinate is the anchor pixel or its neighbour
    // toward zero, and the weight leans to the anchor accordingly.
    if fx >= x * SCALE {
        lemma_fundamental_div_mod_converse_div(fx, SCALE as int, x, fx - x * SCALE);
        lemma_fundamental_div_mod_converse_mod(fx, SCALE as int, x, fx - x * SCALE);
        assert(fx == x * (SCALE as int) + (fx - x * SCALE)) by (nonlinear_arith);
    } else {
        lemma_fundamental_div_mod_converse_div(fx, SCALE as int, x - 1, fx - (x - 1) * SCALE);
        lemma_fundamental_div_mod_converse_mod(fx, SCALE as int, x - 1, fx - (x - 1) * SCALE);
        assert(fx == (x - 1) * (SCALE as int) + (fx - (x - 1) * SCALE) && 0 <= fx - (x - 1) * SCALE
            < SCALE) by (nonlinear_arith)
            requires
                x * SCALE - ROUND_TRIP_DRIFT < fx < x * SCALE,
                SCALE == 10_000_000i64,
                ROUND_TRIP_DRIFT == 32769i64,
        ;
    }
    let x1 = if x0 + 1 < w {
        x0 + 1
    } else {
        w - 1
    };
    let y1 = if y0 + 1 < h {
        y0 + 1
    } else {
        h - 1
    };
    if fy >= y * SCALE {
        lemma_fundamental_div_mod_converse_div(fy, SCALE as int, y, fy - y * SCALE);
        lemma_fundamental_div_mod_converse_mod(fy, SCALE as int, y, fy - y * SCALE);
        assert(fy == y * (SCALE as int) + (fy - y * SCALE)) by (nonlinear_arith);
    } else {
        lemma_fundamental_div_mod_converse_div(fy, SCALE as int, y - 1, fy - (y - 1) * SCALE);
        lemma_fundamental_div_mod_converse_mod(fy, SCALE as int, y - 1, fy - (y - 1) * SCALE);
        assert(fy == (y - 1) * (SCALE as int) + (fy - (y - 1) * SCALE) && 0 <= fy - (y - 1) * SCALE
            < SCALE) by (nonlinear_arith)
            requires
                y * SCALE - ROUND_TRIP_DRIFT < fy < y * SCALE,
                SCALE == 10_000_000i64,
                ROUND_TRIP_DRIFT == 32769i64,
        ;
    }
    let p00 = spec_channel(pix, w, x0, y0, ch) as int;
    let p10 = spec_channel(pix, w, x1, y0, ch) as int;
    let p01 = spec_channel(pix, w, x0, y1, ch) as int;
    let p11 = spec_channel(pix, w, x1, y1, ch) as int;
    let top = spec_lerp(p00, p10, wx);
    let bot = spec_lerp(p01, p11, wx);
    lemma_lerp_in_range(p00, p10, wx);
    lemma_lerp_in_range(p01, p11, wx);
    // horizontally, both rows anchor on column x
    if fx >= x * SCALE {
        lemma_lerp_anchor_low(p00, p10, wx);
        lemma_lerp_anchor_low(p01, p11, wx);
    } else {
        assert(x1 == x);
        lemma_lerp_anchor_high(p00, p10, wx);
        lemma_lerp_anchor_high(p01, p11, wx);
    }
    // vertically, the blend anchors on row y
    if fy >= y * SCALE {
        lemma_lerp_anchor_low(top, bot, wy);
    } else {
        assert(y1 == y);
        lemma_lerp_anchor_high(top, bot, wy);
    }
}

/// Identity law: the expression `z` reproduces the input image, every channel
/// of every pixel within two intensity levels (the drift of the fixed-point
/// round trip through the centered coordinate, plus the truncation of the
/// blend).
pub proof fn lemma_identity_within_tolerance<F: ComplexFuncs>(
    funcs: F,
    pix: Seq<u8>,
    w: int,
    h: int,
    x: int,
    y: int,
    ch: int,
)
    requires
        1 <= w <= MAX_DIM,
        1 <= h <= MAX_DIM,
        0 <= x < w,
        0 <= y < h,
        0 <= ch < 3,
    ensures
        ({
            let o = spec_output_channel(Expr::Variable, funcs, pix, w, h, x, y, ch);
            let p = spec_channel(pix, w, x, y, ch);
            p - 2 <= o <= p
        }),
{
    let z = spec_normalize(x, y, w, h);
    lemma_centered_in_range(x, w);
    lemma_centered_in_range(y, h);
    assert(spec_eval(Expr::Variable, z, funcs) == z);
    assert(!spec_singular(z));
    assert(z.re as int == spec_centered(x, w) && z.im as int == spec_centered(y, h));
    lemma_identity_axis(x, w);
    lemma_identity_axis(y, h);
    let fx = spec_wrap(spec_map_back(z.re as int, w), w);
    let fy = spec_wrap(spec_map_back(z.im as int, h), h);
    assert(spec_map_pixel(Expr::Variable, funcs, w, h, x, y) == (Mapped::At {
        fx: fx as i64,
        fy: fy as i64,
    }));
    lemma_sample_anchor(pix, w, h, fx, fy, x, y, ch);
}

/// Identity law on the table path: under the expression `z`, every lookup
/// entry points at its own pixel — the round-trip drift is below half a
/// pixel, so the nearest-sample quantisation recovers the pixel exactly and
/// the gathered image equals the input.
pub proof fn lemma_identity_lookup_exact<F: ComplexFuncs>(funcs: F, w: int, h: int, x: int, y: int)
    requires
        1 <= w <= MAX_DIM,
        1 <= h <= MAX_DIM,
        0 <= x < w,
        0 <= y < h,
    ensures
        spec_lookup_entry(Expr::Variable, funcs, w, h, x, y) == (y * w + x) as u32,
{
    let z = spec_normalize(x, y, w, h);
    lemma_centered_in_range(x, w);
    lemma_centered_in_range(y, h);
    assert(spec_eval(Expr::Variable, z, funcs) == z);
    assert(!spec_singular(z));
    lemma_identity_axis(x, w);
    lemma_identity_axis(y, h);
    let fx = spec_wrap(spec_map_back(z.re as int, w), w);
    let fy = spec_wrap(spec_map_back(z.im as int, h), h);
    assert(spec_map_pixel(Expr::Variable, funcs, w, h, x, y) == (Mapped::At {
        fx: fx as i64,
        fy: fy as i64,
    }));
    lemma_fundamental_div_mod_converse_div(
        fx + HALF_SCALE,
        SCALE as int,
        x,
        fx + HALF_SCALE - x * SCALE,
    );
    assert(fx + HALF_SCALE == x * (SCALE as int) + (fx + HALF_SCALE - x * SCALE))
        by (nonlinear_arith);
    lemma_fundamental_div_mod_converse_div(
        fy + HALF_SCALE,
        SCALE as int,
        y,
        fy + HALF_SCALE - y * SCALE,
    );
    assert(fy + HALF_SCALE == y * (SCALE as int) + (fy + HALF_SCALE - y * SCALE))
        by (nonlinear_arith);
    assert(spec_nearest(fx) == x && spec_nearest(fy) == y);
    lemma_row_major(x, y, w, h);
    assert(w * h <= 0xFFFF_FFFE) by (nonlinear_arith)
        requires
            1 <= w <= MAX_DIM,
            1 <= h <= MAX_DIM,
            MAX_DIM == 65535u32,
    ;
}

/// Singularity law: a pixel whose evaluated value exceeds the threshold on
/// either component is painted exactly black, on the direct path and in the
/// lookup table alike.
pub proof fn lemma_singularity_fallback<F: ComplexFuncs>(
    e: Expr,
    funcs: F,
    pix: Seq<u8>,
    w: int,
    h: int,
    x: int,
    y: int,
)
    requires
        spec_singular(spec_eval(e, spec_normalize(x, y, w, h), funcs)),
    ensures
        spec_lookup_entry(e, funcs, w, h, x, y) == FALLBACK_INDEX,
        forall|ch: int| 0 <= ch < 3 ==> spec_output_channel(e, funcs, pix, w, h, x, y, ch) == 0,
{
}

/// All four source samples around the coordinate `(fx, fy)` — the corners
/// the bilinear blend reads, one of which is the nearest sample — carry
/// channel `ch` values within `[lo, hi]`.
pub open spec fn spec_cell_within(
    pix: Seq<u8>,
    w: int,
    h: int,
    fx: int,
    fy: int,
    ch: int,
    lo: int,
    hi: int,
) -> bool {
    let x0 = fx / (SCALE as int);
    let y0 = fy / (SCALE as int);
    let x1 = if x0 + 1 < w {
        x0 + 1
    } else {
        w - 1
    };
    let y1 = if y0 + 1 < h {
        y0 + 1
    } else {
        h - 1
    };
    &&& lo <= spec_channel(pix, w, x0, y0, ch) <= hi
    &&& lo <= spec_channel(pix, w, x1, y0, ch) <= hi
    &&& lo <= spec_channel(pix, w, x0, y1, ch) <= hi
    &&& lo <= spec_channel(pix, w, x1, y1, ch) <= hi
}

/// Wherever output pixel `(x, y)` samples from, the four source samples
/// around the mapped coordinate carry channel `ch` values within `[lo, hi]`
/// (vacuous at a singularity).
pub open spec fn spec_mapped_cell_within<F: ComplexFuncs>(
    e: Expr,
    funcs: F,
    pix: Seq<u8>,
    w: int,
    h: int,
    x: int,
    y: int,
    ch: int,
    lo: int,
    hi: int,
) -> bool {
    match spec_map_pixel(e, funcs, w, h, x, y) {
        Mapped::Singular => true,
        Mapped::At { fx, fy } => spec_cell_within(pix, w, h, fx as int, fy as int, ch, lo, hi),
    }
}

/// A blend of two values within `[lo, hi]` stays within `[lo, hi]`.
proof fn lemma_lerp_bounds(a: int, b: int, wgt: int, lo: int, hi: int)
    requires
        lo <= a <= hi,
        lo <= b <= hi,
        0 <= wgt < SCALE,
    ensures
        lo <= spec_lerp(a, b, wgt) <= hi,
{
    assert(SCALE * lo <= (SCALE - wgt) * a + wgt * b && (SCALE - wgt) * a + wgt * b <= SCALE * hi)
        by (nonlinear_arith)
        requires
            lo <= a <= hi,
            lo <= b <= hi,
            0 <= wgt < SCALE,
    ;
    vstd::arithmetic::div_mod::lemma_div_is_ordered(
        SCALE * lo,
        (SCALE - wgt) * a + wgt * b,
        SCALE as int,
    );
    vstd::arithmetic::div_mod::lemma_div_is_ordered(
        (SCALE - wgt) * a + wgt * b,
        SCALE * hi,
        SCALE as int,
    );
    vstd::arithmetic::div_mod::lemma_div_multiples_vanish(lo, SCALE as int);
    vstd::arithmetic::div_mod::lemma_div_multiples_vanish(hi, SCALE as int);
}

/// The nearest sample to a wrapped coordinate is one of the two samples whose
/// cell the coordinate lies in — the same pair the bilinear blend reads.
proof fn lemma_nearest_in_cell(fx: int, dim: int)
    requires
        1 <= dim,
        0 <= fx <= (dim - 1) * SCALE,
    ensures
        ({
            let x0 = fx / (SCALE as int);
            let x1 = if x0 + 1 < dim {
                x0 + 1
            } else {
                dim - 1
            };
            spec_nearest(fx) == x0 || spec_nearest(fx) == x1
        }),
{
    let x0 = fx / (SCALE as int);
    let frac = fx % (SCALE as int);
    vstd::arithmetic::div_mod::lemma_fundamental_div_mod(fx, SCALE as int);
    vstd::arithmetic::div_mod::lemma_mod_bound(fx, SCALE as int);
    if frac < HALF_SCALE {
        lemma_fundamental_div_mod_converse_div(fx + HALF_SCALE, SCALE as int, x0, frac + HALF_SCALE);
        assert(fx + HALF_SCALE == x0 * (SCALE as int) + (frac + HALF_SCALE)) by (nonlinear_arith)
            requires
                fx == (SCALE as int) * x0 + frac,
        ;
    } else {
        lemma_fundamental_div_mod_converse_div(
            fx + HALF_SCALE,
            SCALE as int,
            x0 + 1,
            frac - HALF_SCALE,
        );
        assert(fx + HALF_SCALE == (x0 + 1) * (SCALE as int) + (frac - HALF_SCALE))
            by (nonlinear_arith)
            requires
                fx == (SCALE as int) * x0 + frac,
                SCALE == 2 * HALF_SCALE,
        ;
        // the coordinate sits strictly above its whole part, so the cell's
        // upper sample exists
        assert(x0 + 1 <= dim - 1) by (nonlinear_arith)
            requires
                fx == (SCALE as int) * x0 + frac,
                frac >= HALF_SCALE,
                HALF_SCALE > 0,
                fx <= (dim - 1) * SCALE,
                SCALE == 10_000_000i64,
        ;
    }
}

/// Consistency law between the two paths: wherever the image is locally flat
/// to within `[lo, hi]` around the mapped coordinate, the direct bilinear
/// output and the source sample the lookup table gathers both lie in
/// `[lo, hi]` — so the paths agree within the image's local oscillation
/// `hi - lo`, the sharp-edge-free reading of their consistency.
pub proof fn lemma_lookup_direct_consistency<F: ComplexFuncs>(
    e: Expr,
    funcs: F,
    pix: Seq<u8>,
    w: int,
    h: int,
    x: int,
    y: int,
    ch: int,
    lo: int,
    hi: int,
)
    requires
        1 <= w <= MAX_DIM,
        1 <= h <= MAX_DIM,
        0 <= x < w,
        0 <= y < h,
        0 <= ch < 3,
        !spec_singular(spec_eval(e, spec_normalize(x, y, w, h), funcs)),
        spec_mapped_cell_within(e, funcs, pix, w, h, x, y, ch, lo, hi),
    ensures
        lo <= spec_output_channel(e, funcs, pix, w, h, x, y, ch) <= hi,
        ({
            let entry = spec_lookup_entry(e, funcs, w, h, x, y);
            entry != FALLBACK_INDEX && lo <= pix[3 * entry + ch] <= hi
        }),
{
    let v = spec_eval(e, spec_normalize(x, y, w, h), funcs);
    let fx = spec_wrap(spec_map_back(v.re as int, w), w);
    let fy = spec_wrap(spec_map_back(v.im as int, h), h);
    crate::mapping::lemma_wrap_range(spec_map_back(v.re as int, w), w);
    crate::mapping::lemma_wrap_range(spec_map_back(v.im as int, h), h);
    assert(spec_map_pixel(e, funcs, w, h, x, y) == (Mapped::At { fx: fx as i64, fy: fy as i64 }));
    let x0 = fx / (SCALE as int);
    let y0 = fy / (SCALE as int);
    let x1 = if x0 + 1 < w {
        x0 + 1
    } else {
        w - 1
    };
    let y1 = if y0 + 1 < h {
        y0 + 1
    } else {
        h - 1
    };
    vstd::arithmetic::div_mod::lemma_mod_bound(fx, SCALE as int);
    vstd::arithmetic::div_mod::lemma_mod_bound(fy, SCALE as int);
    // the direct path blends the four corners, staying inside their range
    let wx = fx % (SCALE as int);
    let wy = fy % (SCALE as int);
    let top = spec_lerp(
        spec_channel(pix, w, x0, y0, ch) as int,
        spec_channel(pix, w, x1, y0, ch) as int,
        wx,
    );
    let bot = spec_lerp(
        spec_channel(pix, w, x0, y1, ch) as int,
        spec_channel(pix, w, x1, y1, ch) as int,
        wx,
    );
    lemma_lerp_bounds(
        spec_channel(pix, w, x0, y0, ch) as int,
        spec_channel(pix, w, x1, y0, ch) as int,
        wx,
        lo,
        hi,
    );
    lemma_lerp_bounds(
        spec_channel(pix, w, x0, y1, ch) as int,
        spec_channel(pix, w, x1, y1, ch) as int,
        wx,
        lo,
        hi,
    );
    lemma_lerp_bounds(top, bot, wy, lo, hi);
    // the lookup path gathers the nearest corner
    lemma_nearest_in_cell(fx, w);
    lemma_nearest_in_cell(fy, h);
    let nx = spec_nearest(fx);
    let ny = spec_nearest(fy);
    crate::holo::lemma_nearest_in_range(fx, w);
    crate::holo::lemma_nearest_in_range(fy, h);
    lemma_row_major(nx, ny, w, h);
    assert(w * h <= 0xFFFF_FFFE) by (nonlinear_arith)
        requires
            1 <= w <= MAX_DIM,
            1 <= h <= MAX_DIM,
            MAX_DIM == 65535u32,
    ;
    let entry = spec_lookup_entry(e, funcs, w, h, x, y);
    assert(entry == ny * w + nx);
    assert(pix[3 * entry + ch] == spec_channel(pix, w, nx, ny, ch));
}

/// One axis of the center law: an evaluated component whose mapped-back
/// coordinate pulls toward the origin by less than one pixel rounds to the
/// center pixel.
proof fn lemma_center_axis(vc: int, dim: int)
    requires
        1 <= dim <= MAX_DIM,
        dim % 2 == 1,
        -SCALE <= tdiv(vc * half_units(dim), SCALE as int) <= -1,
    ensures
        -SINGULARITY_THRESHOLD <= vc <= SINGULARITY_THRESHOLD,
        spec_nearest(spec_wrap(spec_map_back(vc, dim), dim)) == dim / 2,
{
    let c = half_units(dim);
    let k = dim / 2;
    let t = tdiv(vc * c, SCALE as int);
    vstd::arithmetic::div_mod::lemma_fundamental_div_mod(dim, 2);
    assert(dim == 2 * k + 1);
    assert(c == k * SCALE + HALF_SCALE) by (nonlinear_arith)
        requires
            c == dim * HALF_SCALE,
            dim == 2 * k + 1,
            SCALE == 2 * HALF_SCALE,
    ;
    lemma_tdiv_mul_error(vc * c, SCALE as int);
    assert(-(2 * SCALE * SCALE) < vc * c && vc * c < SCALE) by (nonlinear_arith)
        requires
            vc * c >= 0 ==> vc * c - SCALE < t * SCALE <= vc * c,
            vc * c < 0 ==> vc * c <= t * SCALE < vc * c + SCALE,
            -SCALE <= t <= -1,
            SCALE == 10_000_000i64,
    ;
    assert(-SINGULARITY_THRESHOLD <= vc <= SINGULARITY_THRESHOLD) by (nonlinear_arith)
        requires
            -(2 * SCALE * SCALE) < vc * c && vc * c < SCALE,
            c >= HALF_SCALE,
            HALF_SCALE == 5_000_000i64,
            SCALE == 10_000_000i64,
            SINGULARITY_THRESHOLD == 10_000_000_000_000i64,
    ;
    let back = spec_map_back(vc, dim);
    assert(back == t + c);
    assert(k * SCALE + HALF_SCALE - SCALE <= back && back <= k * SCALE + HALF_SCALE - 1);
    let limit = dim * SCALE;
    assert((k + 1) * SCALE <= limit && (dim - 1) * SCALE == limit - SCALE && (k + 1) * SCALE == k
        * SCALE + SCALE) by (nonlinear_arith)
        requires
            limit == dim * SCALE,
            dim == 2 * k + 1,
            0 <= k,
            SCALE == 10_000_000i64,
    ;
    if dim == 1 {
        // the sole pixel: the wrap clamps everything to coordinate zero
        assert(k == 0);
        let fx = spec_wrap(back, dim);
        if back >= 0 {
            lemma_small_mod(back as nat, (2 * limit) as nat);
            assert(fx == 0);
        } else {
            lemma_fundamental_div_mod_converse_mod(back, 2 * limit, -1, back + 2 * limit);
            assert(back % (2 * limit) == back + 2 * limit);
            assert(fx == 0);
        }
        lemma_fundamental_div_mod_converse_div(HALF_SCALE as int, SCALE as int, 0, HALF_SCALE as int);
        assert(spec_nearest(0) == 0);
    } else {
        assert(dim >= 3);
        // within one pixel below the continuous center: no wrap, no clamp
        assert(k >= 1 && 0 <= back && back < (k + 1) * SCALE && (k + 1) * SCALE <= limit - SCALE)
            by (nonlinear_arith)
            requires
                dim == 2 * k + 1,
                dim >= 3,
                k * SCALE + HALF_SCALE - SCALE <= back <= k * SCALE + HALF_SCALE - 1,
                limit == dim * SCALE,
                SCALE == 2 * HALF_SCALE,
                SCALE == 10_000_000i64,
        ;
        lemma_small_mod(back as nat, (2 * limit) as nat);
        assert(spec_wrap(back, dim) == back);
        // back + HALF_SCALE lies in the center pixel's rounding cell
        lemma_fundamental_div_mod_converse_div(
            back + HALF_SCALE,
            SCALE as int,
            k,
            back + HALF_SCALE - k * SCALE,
        );
        assert(back + HALF_SCALE == k * (SCALE as int) + (back + HALF_SCALE - k * SCALE))
            by (nonlinear_arith);
    }
}

/// Center law: on odd dimensions, an expression whose value at the center
/// pixel's coordinate maps back into the center pixel's rounding cell — that
/// is, it pulls toward the origin by less than one pixel, as contractions
/// such as the identity or `0.5 * z` do — sends the center pixel to itself in
/// the lookup table. The continuous image center sits exactly on the rounding
/// boundary between the center pixel and its successor, so a value that
/// pushes even slightly away from the origin leaves the cell: the hypothesis
/// names exactly the inputs for which the property holds.
pub proof fn lemma_center_fixed_point<F: ComplexFuncs>(e: Expr, funcs: F, w: int, h: int)
    requires
        1 <= w <= MAX_DIM,
        1 <= h <= MAX_DIM,
        w % 2 == 1,
        h % 2 == 1,
        ({
            let v = spec_eval(e, spec_normalize(w / 2, h / 2, w, h), funcs);
            -SCALE <= tdiv(v.re * half_units(w), SCALE as int) <= -1 && -SCALE <= tdiv(
                v.im * half_units(h),
                SCALE as int,
            ) <= -1
        }),
    ensures
        spec_lookup_entry(e, funcs, w, h, w / 2, h / 2) == ((h / 2) * w + w / 2) as u32,
{
    let v = spec_eval(e, spec_normalize(w / 2, h / 2, w, h), funcs);
    lemma_center_axis(v.re as int, w);
    lemma_center_axis(v.im as int, h);
    assert(!spec_singular(v));
    let fx = spec_wrap(spec_map_back(v.re as int, w), w);
    let fy = spec_wrap(spec_map_back(v.im as int, h), h);
    assert(spec_map_pixel(e, funcs, w, h, w / 2, h / 2) == (Mapped::At {
        fx: fx as i64,
        fy: fy as i64,
    }));
    crate::mapping::lemma_wrap_range(spec_map_back(v.re as int, w), w);
    crate::mapping::lemma_wrap_range(spec_map_back(v.im as int, h), h);
    lemma_row_major(w / 2, h / 2, w, h);
    assert(w * h <= 0xFFFF_FFFE) by (nonlinear_arith)
        requires
            1 <= w <= MAX_DIM,
            1 <= h <= MAX_DIM,
            MAX_DIM == 65535u32,
    ;
}

} // verus!
