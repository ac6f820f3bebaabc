//! The precomputed lookup table for repeated transformations.
//!
//! Building the table runs the whole coordinate-mapper pass once and stores,
//! for every output pixel, the row-major index of the source pixel nearest
//! to its continuous coordinate — a quantisation that trades the bilinear
//! blend for a table reusable across video frames — or the fallback sentinel
//! where the expression blows up. Applying the table to
//! an image is then a plain gather, with the fallback pixels painted black.

use vstd::prelude::*;

use crate::eval::ComplexFuncs;
use crate::fixed::{HALF_SCALE, SCALE};
use crate::mapping::{map_value, normalize, spec_map_pixel, Mapped};
use crate::parsing::Expr;

verus! {

/// The table entry that marks a fallback (singular) pixel.
pub const FALLBACK_INDEX: u32 = 0xFFFF_FFFF;

/// Largest width or height a lookup table supports; keeps every row-major
/// pixel index below the fallback sentinel.
pub const MAX_DIM: u32 = 65535;

/// The sample index nearest to a coordinate in units (a half rounds up).
pub open spec fn spec_nearest(t: int) -> int {
    (t + HALF_SCALE) / (SCALE as int)
}

/// The nearest index of a wrapped coordinate stays inside the dimension.
pub proof fn lemma_nearest_in_range(t: int, dim: int)
    requires
        1 <= dim,
        0 <= t <= (dim - 1) * SCALE,
    ensures
        0 <= spec_nearest(t) <= dim - 1,
{
    vstd::arithmetic::div_mod::lemma_div_is_ordered(0, t + HALF_SCALE, SCALE as int);
    vstd::arithmetic::div_mod::lemma_div_is_ordered(
        t + HALF_SCALE,
        (dim - 1) * SCALE + (SCALE - 1),
        SCALE as int,
    );
    vstd::arithmetic::div_mod::lemma_fundamental_div_mod_converse_div(
        (dim - 1) * SCALE + (SCALE - 1),
        SCALE as int,
        dim - 1,
        SCALE - 1,
    );
    assert((dim - 1) * SCALE + (SCALE - 1) == (dim - 1) * (SCALE as int) + (SCALE - 1))
        by (nonlinear_arith);
}

/// The table entry for output pixel `(x, y)`: the row-major index of the
/// source pixel nearest to the mapped coordinate, or the sentinel.
pub open spec fn spec_lookup_entry<F: ComplexFuncs>(
    e: Expr,
    funcs: F,
    w: int,
    h: int,
    x: int,
    y: int,
) -> u32 {
    match spec_map_pixel(e, funcs, w, h, x, y) {
        Mapped::Singular => FALLBACK_INDEX,
        Mapped::At { fx, fy } => (spec_nearest(fy as int) * w + spec_nearest(fx as int)) as u32,
    }
}

/// What one table entry contributes to the output image: black for the
/// sentinel, the three source bytes otherwise.
pub open spec fn spec_gathered(entry: u32, pix: Seq<u8>) -> Seq<u8> {
    if entry == FALLBACK_INDEX {
        seq![0u8, 0u8, 0u8]
    } else {
        pix.subrange(3 * entry, 3 * entry + 3)
    }
}

/// Row-major indices are in range and ordered by row.
pub proof fn lemma_row_major(x: int, y: int, w: int, ybound: int)
    requires
        0 <= x < w,
        0 <= y < ybound,
    ensures
        0 <= y * w + x < ybound * w,
{
    assert(0 <= y * w + x < ybound * w) by (nonlinear_arith)
        requires
            0 <= x < w,
            0 <= y < ybound,
    ;
}

/// A precomputed table assigning each output pixel of a `width` by `height`
/// image its source-pixel index (or the fallback sentinel).
pub struct HolomorphicLookup {
    pub lookup: Vec<u32>,
    pub width: u32,
    pub height: u32,
}

impl HolomorphicLookup {
    /// The table covers every pixel, and each entry is either the sentinel or
    /// a valid source index.
    pub open spec fn wf(self) -> bool {
        &&& 1 <= self.width <= MAX_DIM
        &&& 1 <= self.height <= MAX_DIM
        &&& self.lookup@.len() == self.height * self.width
        &&& forall|i: int|
            0 <= i < self.lookup@.len() ==> self.lookup@[i] == FALLBACK_INDEX || self.lookup@[i]
                < self.height * self.width
    }

    /// Build the table for `e` on a `width` by `height` image: one full
    /// coordinate-mapper pass, row-major.
    pub fn new<F: ComplexFuncs>(e: &Expr, funcs: &F, width: u32, height: u32) -> (r:
        HolomorphicLookup)
        requires
            1 <= width <= MAX_DIM,
            1 <= height <= MAX_DIM,
        ensures
            r.wf(),
            r.width == width,
            r.height == height,
            forall|x: int, y: int|
                0 <= x < width && 0 <= y < height ==> r.lookup@[y * width + x]
                    == spec_lookup_entry(*e, *funcs, width as int, height as int, x, y),
    {
        let mut lookup: Vec<u32> = Vec::new();
        let mut y: u32 = 0;
        while y < height
            invariant
                1 <= width <= MAX_DIM,
                1 <= height <= MAX_DIM,
                0 <= y <= height,
                lookup@.len() == y * width,
                forall|px: int, py: int|
                    0 <= px < width && 0 <= py < y ==> lookup@[py * width + px]
                        == spec_lookup_entry(*e, *funcs, width as int, height as int, px, py),
                forall|i: int|
                    0 <= i < lookup@.len() ==> lookup@[i] == FALLBACK_INDEX || lookup@[i] < height
                        * width,
            decreases height - y,
        {
            let mut x: u32 = 0;
            while x < width
                invariant
                    1 <= width <= MAX_DIM,
                    1 <= height <= MAX_DIM,
                    0 <= y < height,
                    0 <= x <= width,
                    lookup@.len() == y * width + x,
                    forall|px: int, py: int|
                        0 <= px < width && 0 <= py < y ==> lookup@[py * width + px]
                            == spec_lookup_entry(*e, *funcs, width as int, height as int, px, py),
                    forall|px: int|
                        0 <= px < x ==> lookup@[y * width + px] == spec_lookup_entry(
                            *e,
                            *funcs,
                            width as int,
                            height as int,
                            px,
                            y as int,
                        ),
                    forall|i: int|
                        0 <= i < lookup@.len() ==> lookup@[i] == FALLBACK_INDEX || lookup@[i]
                            < height * width,
                decreases width - x,
            {
                let z = normalize(x, y, width, height);
                let v = e.evaluate(z, funcs);
                let entry: u32 = match map_value(v, width, height) {
                    Mapped::Singular => FALLBACK_INDEX,
                    Mapped::At { fx, fy } => {
                        proof {
                            lemma_nearest_in_range(fx as int, width as int);
                            lemma_nearest_in_range(fy as int, height as int);
                            lemma_row_major(
                                spec_nearest(fx as int),
                                spec_nearest(fy as int),
                                width as int,
                                height as int,
                            );
                            assert((height as int) * (width as int) <= 0xFFFF_FFFE)
                                by (nonlinear_arith)
                                requires
                                    1 <= width <= MAX_DIM,
                                    1 <= height <= MAX_DIM,
                                    MAX_DIM == 65535u32,
                            ;
                            assert((height as int) * (width as int) == (width as int) * (
                            height as int)) by (nonlinear_arith);
                        }
                        let sx = ((fx as u64 + HALF_SCALE as u64) / SCALE as u64) as u32;
                        let sy = ((fy as u64 + HALF_SCALE as u64) / SCALE as u64) as u32;
                        sy * width + sx
                    },
                };
                let ghost prev = lookup@;
                lookup.push(entry);
                x = x + 1;
                proof {
                    assert forall|px: int, py: int|
                        0 <= px < width && 0 <= py < y implies lookup@[py * width + px]
                        == spec_lookup_entry(
                        *e,
                        *funcs,
                        width as int,
                        height as int,
                        px,
                        py,
                    ) by {
                        lemma_row_major(px, py, width as int, y as int);
                        assert((y as int) * width <= prev.len());
                        assert(lookup@[py * width + px] == prev[py * width + px]);
                    }
                    assert forall|px: int| 0 <= px < x implies lookup@[y * width + px]
                        == spec_lookup_entry(
                        *e,
                        *funcs,
                        width as int,
                        height as int,
                        px,
                        y as int,
                    ) by {
                        lemma_row_major(px, y as int, width as int, y as int + 1);
                        if px < x - 1 {
                            assert(lookup@[y * width + px] == prev[y * width + px]);
                        } else {
                            assert(y * width + px == prev.len());
                        }
                    }
                }
            }
            y = y + 1;
            proof {
                assert((y as int) * width == (y - 1) * width + width) by (nonlinear_arith);
            }
        }
        proof {
            assert forall|x: int, y: int| 0 <= x < width && 0 <= y < height implies lookup@[y
                * width + x] == spec_lookup_entry(
                *e,
                *funcs,
                width as int,
                height as int,
                x,
                y,
            ) by {}
        }
        HolomorphicLookup { lookup, width, height }
    }

    /// The stored entry for position `(x, y)`, or `None` outside the image.
    pub fn get(&self, x: u32, y: u32) -> (r: Option<u32>)
        requires
            self.wf(),
        ensures
            x < self.width && y < self.height ==> r == Some(
                self.lookup@[y as int * self.width as int + x as int],
            ),
            !(x < self.width && y < self.height) ==> r is None,
    {
        if x < self.width && y < self.height {
            proof {
                lemma_row_major(x as int, y as int, self.width as int, self.height as int);
                assert((self.height as int) * (self.width as int) <= 0xFFFF_FFFE
                    && (y as int) * (self.width as int) + x == (y as int) * (self.width as int)
                    + (x as int)) by (nonlinear_arith)
                    requires
                        1 <= self.width <= MAX_DIM,
                        1 <= self.height <= MAX_DIM,
                        MAX_DIM == 65535u32,
                ;
                assert((y as int) * (self.width as int) + (x as int) < (self.height as int) * (
                self.width as int)) by (nonlinear_arith)
                    requires
                        0 <= x < self.width,
                        0 <= y < self.height,
                ;
            }
            let index = (y as usize) * (self.width as usize) + (x as usize);
            Some(self.lookup[index])
        } else {
            None
        }
    }

    /// Apply the table to a source image: a pure gather. Returns `None` when
    /// the buffer does not hold `width * height` RGB pixels; otherwise every
    /// output pixel is the source pixel its entry points at, or black where
    /// the entry is the fallback sentinel.
    pub fn apply(&self, pixels: &Vec<u8>) -> (r: Option<Vec<u8>>)
        requires
            self.wf(),
        ensures
            (r is Some) <==> pixels@.len() == 3 * (self.height * self.width),
            r matches Some(out) ==> out@.len() == pixels@.len() && forall|i: int|
                0 <= i < self.lookup@.len() ==> #[trigger] out@.subrange(3 * i, 3 * i + 3)
                    == spec_gathered(self.lookup@[i], pixels@),
    {
        proof {
            assert((self.height as int) * (self.width as int) <= 0xFFFF_FFFE)
                by (nonlinear_arith)
                requires
                    1 <= self.width <= MAX_DIM,
                    1 <= self.height <= MAX_DIM,
                    MAX_DIM == 65535u32,
            ;
        }
        let total64: u64 = self.height as u64 * self.width as u64;
        let n = pixels.len();
        if n as u64 != 3 * total64 {
            return None;
        }
        let total = total64 as usize;
        let mut out: Vec<u8> = Vec::new();
        let mut i: usize = 0;
        while i < total
            invariant
                self.wf(),
                total == self.height * self.width,
                pixels@.len() == 3 * total,
                pixels@.len() <= usize::MAX,
                out@.len() == 3 * i,
                0 <= i <= total,
                forall|j: int|
                    0 <= j < i ==> #[trigger] out@.subrange(3 * j, 3 * j + 3) == spec_gathered(
                        self.lookup@[j],
                        pixels@,
                    ),
            decreases total - i,
        {
            let entry = self.lookup[i];
            proof {
                assert(self.lookup@[i as int] == FALLBACK_INDEX || self.lookup@[i as int] < (
                self.height as int) * (self.width as int));
                assert(entry == FALLBACK_INDEX || 3 * (entry as int) + 2 < pixels@.len());
            }
            let ghost prev = out@;
            if entry == FALLBACK_INDEX {
                out.push(0);
                out.push(0);
                out.push(0);
            } else {
                let base = 3 * (entry as usize);
                out.push(pixels[base]);
                out.push(pixels[base + 1]);
                out.push(pixels[base + 2]);
            }
            i = i + 1;
            proof {
                assert forall|j: int| 0 <= j < i implies #[trigger] out@.subrange(3 * j, 3 * j + 3)
                    == spec_gathered(self.lookup@[j], pixels@) by {
                    if j < i - 1 {
                        assert(out@.subrange(3 * j, 3 * j + 3) =~= prev.subrange(3 * j, 3 * j + 3));
                    } else {
                        let entry = self.lookup@[j];
                        if entry == FALLBACK_INDEX {
                            assert(out@.subrange(3 * j, 3 * j + 3) =~= seq![0u8, 0u8, 0u8]);
                        } else {
                            assert(out@.subrange(3 * j, 3 * j + 3) =~= pixels@.subrange(
                                3 * entry,
                                3 * entry + 3,
                            ));
                        }
                    }
                }
            }
        }
        Some(out)
    }
}

} // verus!
