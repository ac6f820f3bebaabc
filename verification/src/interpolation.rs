//! Bilinear resampling of a continuous source coordinate.
//!
//! The coordinate arrives in fixed-point units. Each channel blends the four
//! neighbouring samples, first horizontally, then vertically; every blend is
//! `(1 - w) * a + w * b` truncated to the integer channel value, the
//! truncation being this library's precision policy.

use vstd::prelude::*;

use crate::fixed::SCALE;

verus! {

/// One channel of the pixel at `(x, y)` of a row-major RGB buffer of width
/// `w`: three bytes per pixel, no padding.
pub open spec fn spec_channel(pix: Seq<u8>, w: int, x: int, y: int, ch: int) -> u8 {
    pix[3 * (y * w + x) + ch]
}

/// Linear blend `(1 - wgt) * a + wgt * b` with the weight in fixed-point
/// units, truncated.
pub open spec fn spec_lerp(a: int, b: int, wgt: int) -> int {
    ((SCALE - wgt) * a + wgt * b) / (SCALE as int)
}

/// The bilinearly resampled channel `ch` at the continuous coordinate
/// `(fx, fy)` in units: the four neighbours blended horizontally, then
/// vertically.
pub open spec fn spec_sample(pix: Seq<u8>, w: int, h: int, fx: int, fy: int, ch: int) -> int {
    let x0 = fx / (SCALE as int);
    let y0 = fy / (SCALE as int);
    let x1 = if x0 + 1 < w {
        x0 + 1
    } else {
        w - 1
    };
    let y1 = if y0 + 1 < h {
        y0 + 1
    } else {
        h - 1
    };
    let wx = fx % (SCALE as int);
    let wy = fy % (SCALE as int);
    let top = spec_lerp(
        spec_channel(pix, w, x0, y0, ch) as int,
        spec_channel(pix, w, x1, y0, ch) as int,
        wx,
    );
    let bot = spec_lerp(
        spec_channel(pix, w, x0, y1, ch) as int,
        spec_channel(pix, w, x1, y1, ch) as int,
        wx,
    );
    spec_lerp(top, bot, wy)
}

/// A blend of two channel values stays a channel value.
pub proof fn lemma_lerp_in_range(a: int, b: int, wgt: int)
    requires
        0 <= a <= 255,
        0 <= b <= 255,
        0 <= wgt < SCALE,
    ensures
        0 <= spec_lerp(a, b, wgt) <= 255,
{
    assert(0 <= (SCALE - wgt) * a + wgt * b <= 255 * SCALE) by (nonlinear_arith)
        requires
            0 <= a <= 255,
            0 <= b <= 255,
            0 <= wgt < SCALE,
    ;
    vstd::arithmetic::div_mod::lemma_div_is_ordered(0, (SCALE - wgt) * a + wgt * b, SCALE as int);
    vstd::arithmetic::div_mod::lemma_div_is_ordered(
        (SCALE - wgt) * a + wgt * b,
        255 * SCALE,
        SCALE as int,
    );
    vstd::arithmetic::div_mod::lemma_div_multiples_vanish(255, SCALE as int);
    vstd::arithmetic::div_mod::lemma_div_basics(SCALE as int);
    assert(255 * SCALE == (SCALE as int) * 255) by (nonlinear_arith);
}

/// Exec blend of one channel.
fn lerp(a: u8, b: u8, wgt: u64) -> (r: u8)
    requires
        wgt < SCALE,
    ensures
        r as int == spec_lerp(a as int, b as int, wgt as int),
{
    proof {
        lemma_lerp_in_range(a as int, b as int, wgt as int);
        assert((SCALE - wgt) * (a as int) + wgt * (b as int) <= 2_550_000_000 && 0 <= (SCALE - wgt)
            * (a as int) && 0 <= wgt * (b as int)) by (nonlinear_arith)
            requires
                0 <= a <= 255,
                0 <= b <= 255,
                0 <= wgt < SCALE,
                SCALE == 10_000_000i64,
        ;
    }
    let t = (SCALE as u64 - wgt) * (a as u64) + wgt * (b as u64);
    (t / SCALE as u64) as u8
}

/// One channel of pixel `(x, y)` of the buffer.
fn channel_at(pixels: &Vec<u8>, width: u32, height: u32, x: u64, y: u64, ch: usize) -> (r: u8)
    requires
        pixels@.len() == 3 * width * height,
        x < width,
        y < height,
        ch < 3,
    ensures
        r == spec_channel(pixels@, width as int, x as int, y as int, ch as int),
{
    proof {
        assert(0 <= (y as int) * (width as int) + x && 3 * ((y as int) * (width as int) + x) + ch
            < 3 * ((width as int) * (height as int))) by (nonlinear_arith)
            requires
                0 <= x < width,
                0 <= y < height,
                0 <= ch < 3,
        ;
        assert(3 * (width as int) * (height as int) == 3 * ((width as int) * (height as int)))
            by (nonlinear_arith);
    }
    let n = pixels.len();
    let idx = 3 * (y as usize * width as usize + x as usize) + ch;
    proof {
        assert(idx < n);
    }
    pixels[idx]
}

/// Resample the three channels at the continuous coordinate `(x, y)` in
/// fixed-point units.
pub fn bilinear_interpolation(pixels: &Vec<u8>, width: u32, height: u32, x: i64, y: i64) -> (r: (
    u8,
    u8,
    u8,
))
    requires
        1 <= width,
        1 <= height,
        pixels@.len() == 3 * width * height,
        0 <= x <= (width - 1) * SCALE,
        0 <= y <= (height - 1) * SCALE,
    ensures
        r.0 as int == spec_sample(pixels@, width as int, height as int, x as int, y as int, 0),
        r.1 as int == spec_sample(pixels@, width as int, height as int, x as int, y as int, 1),
        r.2 as int == spec_sample(pixels@, width as int, height as int, x as int, y as int, 2),
{
    proof {
        lemma_coord_cell(x as int, width as int);
        lemma_coord_cell(y as int, height as int);
    }
    let x0 = x as u64 / SCALE as u64;
    let y0 = y as u64 / SCALE as u64;
    let wx = x as u64 % SCALE as u64;
    let wy = y as u64 % SCALE as u64;
    let x1 = if x0 + 1 < width as u64 {
        x0 + 1
    } else {
        width as u64 - 1
    };
    let y1 = if y0 + 1 < height as u64 {
        y0 + 1
    } else {
        height as u64 - 1
    };
    let mut out: [u8; 3] = [0u8, 0u8, 0u8];
    let p00_0 = channel_at(pixels, width, height, x0, y0, 0);
    let p10_0 = channel_at(pixels, width, height, x1, y0, 0);
    let p01_0 = channel_at(pixels, width, height, x0, y1, 0);
    let p11_0 = channel_at(pixels, width, height, x1, y1, 0);
    let p00_1 = channel_at(pixels, width, height, x0, y0, 1);
    let p10_1 = channel_at(pixels, width, height, x1, y0, 1);
    let p01_1 = channel_at(pixels, width, height, x0, y1, 1);
    let p11_1 = channel_at(pixels, width, height, x1, y1, 1);
    let p00_2 = channel_at(pixels, width, height, x0, y0, 2);
    let p10_2 = channel_at(pixels, width, height, x1, y0, 2);
    let p01_2 = channel_at(pixels, width, height, x0, y1, 2);
    let p11_2 = channel_at(pixels, width, height, x1, y1, 2);
    let r0 = lerp(lerp(p00_0, p10_0, wx), lerp(p01_0, p11_0, wx), wy);
    let r1 = lerp(lerp(p00_1, p10_1, wx), lerp(p01_1, p11_1, wx), wy);
    let r2 = lerp(lerp(p00_2, p10_2, wx), lerp(p01_2, p11_2, wx), wy);
    (r0, r1, r2)
}

/// A coordinate within `[0, (dim-1) * SCALE]` falls in a valid pixel cell:
/// its whole part indexes a pixel and its fractional part is a weight.
pub proof fn lemma_coord_cell(t: int, dim: int)
    requires
        1 <= dim,
        0 <= t <= (dim - 1) * SCALE,
    ensures
        0 <= t / (SCALE as int) <= dim - 1,
        0 <= t % (SCALE as int) < SCALE,
{
    vstd::arithmetic::div_mod::lemma_mod_bound(t, SCALE as int);
    vstd::arithmetic::div_mod::lemma_div_is_ordered(0, t, SCALE as int);
    vstd::arithmetic::div_mod::lemma_div_is_ordered(t, (dim - 1) * SCALE, SCALE as int);
    vstd::arithmetic::div_mod::lemma_div_multiples_vanish(dim - 1, SCALE as int);
    vstd::arithmetic::div_mod::lemma_div_basics(SCALE as int);
    assert((dim - 1) * SCALE == (SCALE as int) * (dim - 1)) by (nonlinear_arith);
}

} // verus!
