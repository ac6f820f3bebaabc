//! Plain pixel-buffer conversions at the pipeline's edges.
//!
//! The display window consumes one machine word per pixel with the red
//! channel in the high byte; a camera hands frames out with the blue channel
//! first. Both conversions are pure rearrangements of the bytes.

use vstd::prelude::*;

verus! {

/// The packed word of pixel `i`: red shifted into the high byte, green into
/// the middle, blue low.
pub open spec fn spec_packed(pix: Seq<u8>, i: int) -> u32 {
    (pix[3 * i] * 0x1_0000 + pix[3 * i + 1] * 0x100 + pix[3 * i + 2]) as u32
}

/// Pack an RGB buffer into one word per pixel, the display's form.
pub fn pack_rgb_buffer(pixels: &Vec<u8>) -> (r: Vec<u32>)
    requires
        pixels@.len() % 3 == 0,
    ensures
        r@.len() == pixels@.len() / 3,
        forall|i: int| 0 <= i < r@.len() ==> r@[i] == spec_packed(pixels@, i),
{
    let n = pixels.len();
    proof {
        vstd::arithmetic::div_mod::lemma_fundamental_div_mod(n as int, 3);
    }
    let total = n / 3;
    let mut out: Vec<u32> = Vec::new();
    let mut i: usize = 0;
    while i < total
        invariant
            0 <= i <= total,
            n == pixels@.len(),
            3 * total == n,
            out@.len() == i,
            forall|j: int| 0 <= j < i ==> out@[j] == spec_packed(pixels@, j),
        decreases total - i,
    {
        let red = pixels[3 * i] as u32;
        let green = pixels[3 * i + 1] as u32;
        let blue = pixels[3 * i + 2] as u32;
        out.push(red * 0x1_0000 + green * 0x100 + blue);
        i = i + 1;
    }
    out
}

/// Pixel `j` of `dst` carries pixel `j` of `src` with its first and third
/// channels exchanged.
pub open spec fn spec_swapped(src: Seq<u8>, dst: Seq<u8>, j: int) -> bool {
    &&& dst[3 * j] == src[3 * j + 2]
    &&& dst[3 * j + 1] == src[3 * j + 1]
    &&& dst[3 * j + 2] == src[3 * j]
}

/// Reorder a buffer of blue-green-red pixels into red-green-blue.
pub fn bgr_to_rgb(pixels: &Vec<u8>) -> (r: Vec<u8>)
    requires
        pixels@.len() % 3 == 0,
    ensures
        r@.len() == pixels@.len(),
        forall|j: int| 0 <= j < pixels@.len() / 3 ==> #[trigger] spec_swapped(pixels@, r@, j),
{
    let n = pixels.len();
    proof {
        vstd::arithmetic::div_mod::lemma_fundamental_div_mod(n as int, 3);
    }
    let total = n / 3;
    let mut out: Vec<u8> = Vec::new();
    let mut i: usize = 0;
    while i < total
        invariant
            0 <= i <= total,
            n == pixels@.len(),
            3 * total == n,
            out@.len() == 3 * i,
            forall|j: int| 0 <= j < i ==> #[trigger] spec_swapped(pixels@, out@, j),
        decreases total - i,
    {
        let ghost prev = out@;
        out.push(pixels[3 * i + 2]);
        out.push(pixels[3 * i + 1]);
        out.push(pixels[3 * i]);
        i = i + 1;
        proof {
            assert forall|j: int| 0 <= j < i implies #[trigger] spec_swapped(
                pixels@,
                out@,
                j,
            ) by {
                if j < i - 1 {
                    assert(spec_swapped(pixels@, prev, j));
                    assert(out@[3 * j] == prev[3 * j]);
                    assert(out@[3 * j + 1] == prev[3 * j + 1]);
                    assert(out@[3 * j + 2] == prev[3 * j + 2]);
                } else {
                    assert(3 * j == prev.len());
                }
            }
        }
    }
    out
}

} // verus!
