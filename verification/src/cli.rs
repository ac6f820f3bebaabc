//! Command-line level data: resolution presets and parsed options.
//!
//! The options themselves are gathered by an unverified front end; this
//! module holds their plain form and the small pieces of logic behind them.

use vstd::prelude::*;

use vstd::string::{StringExecFns, StringSliceAdditionalSpecFns};

use crate::parsing::{is_digit, spec_digits_val};

verus! {

/// Why a dimensions argument was rejected.
#[derive(Clone, Copy, PartialEq, Eq, Structural, Debug)]
pub enum DimensionsError {
    /// Not exactly two comma-separated parts.
    Format,
    /// The part before the comma is not a valid width.
    Width,
    /// The part after the comma is not a valid height.
    Height,
}

/// The first position at or after `i` that holds a comma, or the end.
pub open spec fn spec_find_comma(s: Seq<u8>, i: int) -> int
    decreases s.len() - i,
    when 0 <= i <= s.len()
{
    if i < s.len() && s[i] != 44 {
        spec_find_comma(s, i + 1)
    } else {
        i
    }
}

/// The value of `s[j..k]` as a dimension: a nonempty run of digits whose
/// value fits the dimension type.
pub open spec fn spec_field(s: Seq<u8>, j: int, k: int) -> Option<u32> {
    if j < k && (forall|t: int| j <= t < k ==> is_digit(#[trigger] s[t])) && spec_digits_val(
        s,
        j,
        k,
    ) <= 0xFFFF_FFFF {
        Some(spec_digits_val(s, j, k) as u32)
    } else {
        None
    }
}

/// What parsing a `width,height` argument must yield.
pub open spec fn spec_parse_dimensions(s: Seq<u8>) -> Result<(u32, u32), DimensionsError> {
    let c = spec_find_comma(s, 0);
    if c >= s.len() {
        Err(DimensionsError::Format)
    } else if spec_find_comma(s, c + 1) < s.len() {
        Err(DimensionsError::Format)
    } else {
        match spec_field(s, 0, c) {
            None => Err(DimensionsError::Width),
            Some(w) => match spec_field(s, c + 1, s.len() as int) {
                None => Err(DimensionsError::Height),
                Some(h) => Ok((w, h)),
            },
        }
    }
}

/// The message each rejection carries.
pub open spec fn spec_dimensions_message(e: DimensionsError) -> Seq<char> {
    match e {
        DimensionsError::Format => "Dimensions must be in format width,height"@,
        DimensionsError::Width => "Invalid width"@,
        DimensionsError::Height => "Invalid height"@,
    }
}

/// Parse one dimension field.
fn parse_u32_field(bytes: &[u8], j: usize, k: usize) -> (r: Option<u32>)
    requires
        j <= k <= bytes@.len(),
    ensures
        r == spec_field(bytes@, j as int, k as int),
{
    if j == k {
        return None;
    }
    let mut t = j;
    let mut acc: u64 = 0;
    let mut over = false;
    while t < k
        invariant
            j <= t <= k <= bytes@.len(),
            forall|u: int| j <= u < t ==> is_digit(#[trigger] bytes@[u]),
            over ==> spec_digits_val(bytes@, j as int, t as int) > 0xFFFF_FFFF,
            !over ==> acc == spec_digits_val(bytes@, j as int, t as int) && acc <= 0xFFFF_FFFF,
        decreases k - t,
    {
        let b = bytes[t];
        if b < 48 || b > 57 {
            return None;
        }
        let d = (b - 48) as u64;
        proof {
            assert(spec_digits_val(bytes@, j as int, t + 1) == spec_digits_val(
                bytes@,
                j as int,
                t as int,
            ) * 10 + (bytes@[t as int] - 48));
            if over {
                assert(spec_digits_val(bytes@, j as int, t as int) * 10 + (bytes@[t as int] - 48)
                    > 0xFFFF_FFFF) by (nonlinear_arith)
                    requires
                        spec_digits_val(bytes@, j as int, t as int) > 0xFFFF_FFFF,
                        bytes@[t as int] >= 48,
                ;
            }
        }
        if !over {
            if acc > 429_496_729 || (acc == 429_496_729 && d > 5) {
                over = true;
            } else {
                acc = acc * 10 + d;
            }
        }
        t = t + 1;
    }
    if over {
        None
    } else {
        Some(acc as u32)
    }
}

/// Parse a `width,height` argument: exactly two comma-separated decimal
/// numbers. The result, or the message, is exactly what
/// [`spec_parse_dimensions`] states.
pub fn parse_dimensions(s: &str) -> (r: Result<(u32, u32), String>)
    ensures
        r matches Ok(v) ==> spec_parse_dimensions(s.spec_bytes()) == Ok::<
            (u32, u32),
            DimensionsError,
        >(v),
        r matches Err(m) ==> (spec_parse_dimensions(s.spec_bytes()) matches Err(e) && m@
            == spec_dimensions_message(e)),
{
    let bytes = s.as_bytes();
    let n = bytes.len();
    let mut c: usize = 0;
    while c < n && bytes[c] != 44
        invariant
            0 <= c <= n,
            n == bytes@.len(),
            spec_find_comma(bytes@, 0) == spec_find_comma(bytes@, c as int),
        decreases n - c,
    {
        c = c + 1;
    }
    if c == n {
        return Err(String::from_str("Dimensions must be in format width,height"));
    }
    let mut d: usize = c + 1;
    while d < n && bytes[d] != 44
        invariant
            c + 1 <= d <= n,
            n == bytes@.len(),
            spec_find_comma(bytes@, c as int + 1) == spec_find_comma(bytes@, d as int),
        decreases n - d,
    {
        d = d + 1;
    }
    if d < n {
        return Err(String::from_str("Dimensions must be in format width,height"));
    }
    let width = match parse_u32_field(bytes, 0, c) {
        None => {
            return Err(String::from_str("Invalid width"));
        },
        Some(w) => w,
    };
    let height = match parse_u32_field(bytes, c + 1, n) {
        None => {
            return Err(String::from_str("Invalid height"));
        },
        Some(h) => h,
    };
    Ok((width, height))
}

/// Named screen resolution presets.
#[derive(Clone, Copy, PartialEq, Eq, Structural, Debug)]
pub enum Resolution {
    Hd,
    FullHd,
    Uhd,
    Qhd,
    Wqhd,
    FourK,
    EightK,
    Sd,
    Retina,
    Svga,
    Xga,
    Wxga,
    HdReady,
    Wvga,
    Qvga,
    Cga,
}

/// The width and height, in pixels, that each preset stands for.
pub open spec fn spec_dimensions(r: Resolution) -> (u32, u32) {
    match r {
        Resolution::Hd => (1280, 720),
        Resolution::FullHd => (1920, 1080),
        Resolution::Uhd => (3840, 2160),
        Resolution::Qhd => (2560, 1440),
        Resolution::Wqhd => (2560, 1600),
        Resolution::FourK => (3840, 2160),
        Resolution::EightK => (7680, 4320),
        Resolution::Sd => (640, 480),
        Resolution::Retina => (2048, 1536),
        Resolution::Svga => (800, 600),
        Resolution::Xga => (1024, 768),
        Resolution::Wxga => (1280, 800),
        Resolution::HdReady => (1366, 768),
        Resolution::Wvga => (800, 480),
        Resolution::Qvga => (320, 240),
        Resolution::Cga => (640, 200),
    }
}

impl Resolution {
    /// The width and height of this preset.
    pub fn to_dimensions(&self) -> (r: (u32, u32))
        ensures
            r == spec_dimensions(*self),
    {
        match self {
            Resolution::Hd => (1280, 720),
            Resolution::FullHd => (1920, 1080),
            Resolution::Uhd => (3840, 2160),
            Resolution::Qhd => (2560, 1440),
            Resolution::Wqhd => (2560, 1600),
            Resolution::FourK => (3840, 2160),
            Resolution::EightK => (7680, 4320),
            Resolution::Sd => (640, 480),
            Resolution::Retina => (2048, 1536),
            Resolution::Svga => (800, 600),
            Resolution::Xga => (1024, 768),
            Resolution::Wxga => (1280, 800),
            Resolution::HdReady => (1366, 768),
            Resolution::Wvga => (800, 480),
            Resolution::Qvga => (320, 240),
            Resolution::Cga => (640, 200),
        }
    }
}

/// The program's options in plain form. The unverified front end parses the
/// command line into its own copy of this struct and converts.
pub struct Cli {
    /// The expression to apply, as written by the user.
    pub function: String,
    /// Path to an image file to transform; a live source is used when absent.
    pub image: Option<String>,
    /// A preset overriding custom dimensions.
    pub resolution: Option<Resolution>,
    /// Custom dimensions as width and height.
    pub dimensions: Option<(u32, u32)>,
}

} // verus!
