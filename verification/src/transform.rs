//! The whole pipeline on one image: parse once, remap every pixel.
//!
//! This is the direct path: every output pixel evaluates the expression at
//! its centered coordinate and resamples the source bilinearly (the cached
//! nearest-pixel path lives in [`crate::holo`]). A pixel whose value blows up
//! is painted black; a buffer that does not hold `width * height` RGB pixels
//! is reported, not touched.

use vstd::prelude::*;

use vstd::string::StringSliceAdditionalSpecFns;

use crate::eval::ComplexFuncs;
use crate::holo::lemma_row_major;
use crate::interpolation::{bilinear_interpolation, spec_sample};
use crate::mapping::{map_value, normalize, spec_map_pixel, Mapped};
use crate::parsing::{spec_parse, Expr, ParseError};

verus! {

/// Why a transform failed.
#[derive(Clone, Copy, PartialEq, Eq, Structural, Debug)]
pub enum TransformError {
    /// The expression failed to parse.
    Parse(ParseError),
    /// The buffer does not hold `width * height` RGB pixels.
    DimensionMismatch,
}

/// Channel `ch` of output pixel `(x, y)`: black at a singularity, otherwise
/// the bilinear sample at the mapped source coordinate.
pub open spec fn spec_output_channel<F: ComplexFuncs>(
    e: Expr,
    funcs: F,
    pix: Seq<u8>,
    w: int,
    h: int,
    x: int,
    y: int,
    ch: int,
) -> int {
    match spec_map_pixel(e, funcs, w, h, x, y) {
        Mapped::Singular => 0,
        Mapped::At { fx, fy } => spec_sample(pix, w, h, fx as int, fy as int, ch),
    }
}

/// Remap a whole image through an already parsed expression, bilinearly.
pub fn apply_holomorphic_function<F: ComplexFuncs>(
    pixels: &Vec<u8>,
    width: u32,
    height: u32,
    e: &Expr,
    funcs: &F,
) -> (r: Vec<u8>)
    requires
        pixels@.len() == 3 * width * height,
    ensures
        r@.len() == pixels@.len(),
        forall|x: int, y: int, ch: int|
            0 <= x < width && 0 <= y < height && 0 <= ch < 3 ==> r@[3 * (y * width + x) + ch] as int
                == spec_output_channel(
                *e,
                *funcs,
                pixels@,
                width as int,
                height as int,
                x,
                y,
                ch,
            ),
{
    let mut out: Vec<u8> = Vec::new();
    let mut y: u32 = 0;
    proof {
        assert(3 * ((width as int) * (height as int)) == 3 * (width as int) * (height as int))
            by (nonlinear_arith);
    }
    while y < height
        invariant
            0 <= y <= height,
            pixels@.len() == 3 * ((width as int) * (height as int)),
            out@.len() == 3 * (y * width),
            forall|px: int, py: int, ch: int|
                0 <= px < width && 0 <= py < y && 0 <= ch < 3 ==> out@[3 * (py * width + px)
                    + ch] as int == spec_output_channel(
                    *e,
                    *funcs,
                    pixels@,
                    width as int,
                    height as int,
                    px,
                    py,
                    ch,
                ),
        decreases height - y,
    {
        let mut x: u32 = 0;
        while x < width
            invariant
                0 <= y < height,
                0 <= x <= width,
                pixels@.len() == 3 * ((width as int) * (height as int)),
                out@.len() == 3 * (y * width + x),
                forall|px: int, py: int, ch: int|
                    0 <= px < width && 0 <= py < y && 0 <= ch < 3 ==> out@[3 * (py * width + px)
                        + ch] as int == spec_output_channel(
                        *e,
                        *funcs,
                        pixels@,
                        width as int,
                        height as int,
                        px,
                        py,
                        ch,
                    ),
                forall|px: int, ch: int|
                    0 <= px < x && 0 <= ch < 3 ==> out@[3 * (y * width + px) + ch] as int
                        == spec_output_channel(
                        *e,
                        *funcs,
                        pixels@,
                        width as int,
                        height as int,
                        px,
                        y as int,
                        ch,
                    ),
            decreases width - x,
        {
            proof {
                assert(3 * ((width as int) * (height as int)) == 3 * (width as int) * (
                height as int)) by (nonlinear_arith);
            }
            let z = normalize(x, y, width, height);
            let v = e.evaluate(z, funcs);
            let ghost prev = out@;
            match map_value(v, width, height) {
                Mapped::Singular => {
                    out.push(0);
                    out.push(0);
                    out.push(0);
                },
                Mapped::At { fx, fy } => {
                    let (r0, r1, r2) = bilinear_interpolation(pixels, width, height, fx, fy);
                    out.push(r0);
                    out.push(r1);
                    out.push(r2);
                },
            }
            x = x + 1;
            proof {
                assert forall|px: int, py: int, ch: int|
                    0 <= px < width && 0 <= py < y && 0 <= ch < 3 implies out@[3 * (py * width + px)
                    + ch] as int == spec_output_channel(
                    *e,
                    *funcs,
                    pixels@,
                    width as int,
                    height as int,
                    px,
                    py,
                    ch,
                ) by {
                    lemma_row_major(px, py, width as int, y as int);
                    assert(out@[3 * (py * width + px) + ch] == prev[3 * (py * width + px) + ch]);
                }
                assert forall|px: int, ch: int|
                    0 <= px < x && 0 <= ch < 3 implies out@[3 * (y * width + px) + ch] as int
                    == spec_output_channel(
                    *e,
                    *funcs,
                    pixels@,
                    width as int,
                    height as int,
                    px,
                    y as int,
                    ch,
                ) by {
                    lemma_row_major(px, y as int, width as int, y as int + 1);
                    if px < x - 1 {
                        assert(out@[3 * (y * width + px) + ch] == prev[3 * (y * width + px) + ch]);
                    } else {
                        assert(3 * (y * width + px) + ch == prev.len() + ch);
                    }
                }
            }
        }
        y = y + 1;
        proof {
            assert(3 * ((y as int) * width) == 3 * ((y - 1) * width + width)) by (nonlinear_arith);
        }
    }
    proof {
        assert(3 * ((height as int) * (width as int)) == 3 * ((width as int) * (height as int)))
            by (nonlinear_arith);
    }
    out
}

/// Parse `expression` and remap the image through it: the buffers are
/// `width * height` RGB pixels, row-major, three bytes each. A parse failure
/// or a wrongly sized buffer is reported; on success the output buffer has
/// exactly the input's length, and every pixel is as
/// [`spec_output_channel`] states.
pub fn apply_transform<F: ComplexFuncs>(
    pixels: &Vec<u8>,
    width: u32,
    height: u32,
    expression: &str,
    funcs: &F,
) -> (r: Result<Vec<u8>, TransformError>)
    ensures
        spec_parse(expression.spec_bytes()) matches Err(pe) ==> r == Err::<
            Vec<u8>,
            TransformError,
        >(TransformError::Parse(pe)),
        (spec_parse(expression.spec_bytes()) is Ok) && pixels@.len() != 3 * width * height ==> r
            == Err::<Vec<u8>, TransformError>(TransformError::DimensionMismatch),
        spec_parse(expression.spec_bytes()) matches Ok(e) ==> (pixels@.len() == 3 * width * height
            ==> (r matches Ok(out) && out@.len() == pixels@.len() && forall|x: int, y: int, ch: int|
            0 <= x < width && 0 <= y < height && 0 <= ch < 3 ==> out@[3 * (y * width + x)
                + ch] as int == spec_output_channel(
                e,
                *funcs,
                pixels@,
                width as int,
                height as int,
                x,
                y,
                ch,
            ))),
{
    let parsed = Expr::parse(expression);
    match parsed {
        Err(pe) => Err(TransformError::Parse(pe)),
        Ok(e) => {
            proof {
                assert((width as int) * (height as int) <= 0xFFFF_FFFFu64 * 0xFFFF_FFFFu64 && 0
                    <= (width as int) * (height as int) && 3 * ((width as int) * (height as int))
                    == 3 * (width as int) * (height as int)) by (nonlinear_arith)
                    requires
                        0 <= width <= 0xFFFF_FFFFu64,
                        0 <= height <= 0xFFFF_FFFFu64,
                ;
            }
            let need: u128 = 3u128 * (width as u128 * height as u128);
            if pixels.len() as u128 != need {
                Err(TransformError::DimensionMismatch)
            } else {
                Ok(apply_holomorphic_function(pixels, width, height, &e, funcs))
            }
        },
    }
}

} // verus!
