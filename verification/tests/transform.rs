use holomorphic::complex::Complex;
use holomorphic::eval::ComplexFuncs;
use holomorphic::fixed::{FIX_MAX, SCALE};
use holomorphic::holo::{HolomorphicLookup, FALLBACK_INDEX};
use holomorphic::parsing::{Expr, Func};
use holomorphic::transform::{apply_transform, TransformError};

/// Transcendental functions backed by `num_complex` on `f64`.
struct FloatFuncs;

fn to_f64(z: Complex) -> num_complex::Complex<f64> {
    num_complex::Complex::new(z.re as f64 / SCALE as f64, z.im as f64 / SCALE as f64)
}

fn from_f64(w: num_complex::Complex<f64>) -> Complex {
    let cvt = |x: f64| -> i64 {
        if x.is_nan() {
            FIX_MAX
        } else {
            (x * SCALE as f64) as i64
        }
    };
    Complex {
        re: cvt(w.re),
        im: cvt(w.im),
    }
}

impl ComplexFuncs for FloatFuncs {
    // Ghost members: erased, never run, but named by every impl.
    fn spec_apply(&self, _f: Func, z: Complex) -> Complex {
        z
    }

    fn spec_pow(&self, base: Complex, _exp_re: i64) -> Complex {
        base
    }

    fn apply_func(&self, f: Func, z: Complex) -> Complex {
        let w = to_f64(z);
        let r = match f {
            Func::Sin => w.sin(),
            Func::Cos => w.cos(),
            Func::Tan => w.tan(),
            Func::Exp => w.exp(),
            Func::Log => w.ln(),
            Func::Sqrt => w.sqrt(),
            Func::Sinh => w.sinh(),
            Func::Cosh => w.cosh(),
            Func::Tanh => w.tanh(),
            Func::Asin => w.asin(),
            Func::Acos => w.acos(),
            Func::Atan => w.atan(),
            Func::Abs => num_complex::Complex::new(w.norm(), 0.0),
            Func::Conj => w.conj(),
        };
        from_f64(r)
    }

    fn apply_pow(&self, base: Complex, exp_re: i64) -> Complex {
        from_f64(to_f64(base).powf(exp_re as f64 / SCALE as f64))
    }
}

fn gradient_image(w: u32, h: u32) -> Vec<u8> {
    let mut pix = Vec::new();
    for y in 0..h {
        for x in 0..w {
            pix.push((x % 200) as u8);
            pix.push((y % 200) as u8);
            pix.push(77);
        }
    }
    pix
}

#[test]
fn buffer_round_trip_length() {
    let f = FloatFuncs;
    let (w, h) = (7u32, 5u32);
    let pix = gradient_image(w, h);
    let out = apply_transform(&pix, w, h, "z", &f).unwrap();
    assert_eq!(out.len(), (w * h * 3) as usize);
}

#[test]
fn identity_reproduces_the_image() {
    let f = FloatFuncs;
    let (w, h) = (16u32, 11u32);
    let pix = gradient_image(w, h);
    let out = apply_transform(&pix, w, h, "z", &f).unwrap();
    assert_eq!(out.len(), pix.len());
    for i in 0..pix.len() {
        let p = pix[i] as i32;
        let o = out[i] as i32;
        assert!(p - 2 <= o && o <= p, "byte {}: got {} want about {}", i, o, p);
    }
}

#[test]
fn singularity_pixel_is_black() {
    let f = FloatFuncs;
    // On even dimensions the exact center pixel normalizes to zero, where
    // 1/z blows up past the threshold.
    let (w, h) = (8u32, 8u32);
    let pix = vec![200u8; (w * h * 3) as usize];
    let out = apply_transform(&pix, w, h, "1 / z", &f).unwrap();
    let base = (3 * (4 * w + 4)) as usize;
    assert_eq!(&out[base..base + 3], &[0, 0, 0]);

    // the lookup table marks the same pixel with the fallback sentinel
    let e = Expr::parse("1 / z").unwrap();
    let lookup = HolomorphicLookup::new(&e, &f, w, h);
    assert_eq!(lookup.get(4, 4), Some(FALLBACK_INDEX));
    let gathered = lookup.apply(&pix).unwrap();
    assert_eq!(&gathered[base..base + 3], &[0, 0, 0]);
}

#[test]
fn center_pixel_is_fixed_on_odd_dimensions() {
    let f = FloatFuncs;
    let (w, h) = (9u32, 9u32);
    // expressions that keep the center coordinate inside the center pixel's
    // rounding cell (zero at the center and contracting toward the origin)
    let ez = Expr::parse("z").unwrap();
    let lookup = HolomorphicLookup::new(&ez, &f, w, h);
    assert_eq!(lookup.get(4, 4), Some(4 * 9 + 4));
    let eh = Expr::parse("0.5 * z").unwrap();
    let lookup_half = HolomorphicLookup::new(&eh, &f, w, h);
    assert_eq!(lookup_half.get(4, 4), Some(4 * 9 + 4));

    // output center gathers from the source center
    let mut pix = vec![10u8; (w * h * 3) as usize];
    let base = (3 * (4 * w + 4)) as usize;
    pix[base] = 201;
    pix[base + 1] = 202;
    pix[base + 2] = 203;
    let out = lookup_half.apply(&pix).unwrap();
    assert_eq!(&out[base..base + 3], &[201, 202, 203]);
}

#[test]
fn lookup_and_direct_paths_agree() {
    let f = FloatFuncs;
    let (w, h) = (12u32, 12u32);

    // on a constant image the two paths are exactly equal
    let flat = vec![123u8; (w * h * 3) as usize];
    let direct = apply_transform(&flat, w, h, "z * z", &f).unwrap();
    let e = Expr::parse("z * z").unwrap();
    let lookup = HolomorphicLookup::new(&e, &f, w, h);
    let cached = lookup.apply(&flat).unwrap();
    assert_eq!(direct, cached);

    // under the identity the nearest-sample table reproduces the input
    // exactly, and the bilinear path stays within its blend tolerance of it
    let pix = gradient_image(w, h);
    let direct = apply_transform(&pix, w, h, "z", &f).unwrap();
    let el = Expr::parse("z").unwrap();
    let lookup = HolomorphicLookup::new(&el, &f, w, h);
    let cached = lookup.apply(&pix).unwrap();
    assert_eq!(cached, pix);
    for i in 0..pix.len() {
        let d = direct[i] as i32;
        let c = cached[i] as i32;
        assert!((d - c).abs() <= 2, "byte {}: direct {} cached {}", i, d, c);
    }
}

#[test]
fn parse_failure_and_dimension_mismatch_are_reported() {
    let f = FloatFuncs;
    let pix = vec![0u8; 12];
    match apply_transform(&pix, 2, 2, "z +", &f) {
        Err(TransformError::Parse(_)) => {}
        other => panic!("expected a parse error, got {:?}", other.is_ok()),
    }
    match apply_transform(&pix, 3, 2, "z", &f) {
        Err(TransformError::DimensionMismatch) => {}
        other => panic!("expected a dimension mismatch, got {:?}", other.is_ok()),
    }
    // 2 * 2 * 3 == 12: well-formed
    assert!(apply_transform(&pix, 2, 2, "z", &f).is_ok());
}

#[test]
fn lookup_get_is_bounds_checked() {
    let f = FloatFuncs;
    let e = Expr::parse("z").unwrap();
    let lookup = HolomorphicLookup::new(&e, &f, 4, 3);
    assert!(lookup.get(3, 2).is_some());
    assert_eq!(lookup.get(4, 2), None);
    assert_eq!(lookup.get(3, 3), None);
}

#[test]
fn lookup_apply_rejects_wrong_buffer_length() {
    let f = FloatFuncs;
    let e = Expr::parse("z").unwrap();
    let lookup = HolomorphicLookup::new(&e, &f, 4, 3);
    assert!(lookup.apply(&vec![0u8; 35]).is_none());
    assert!(lookup.apply(&vec![0u8; 36]).is_some());
}

#[test]
fn wrapped_borders_stay_inside_the_image() {
    let f = FloatFuncs;
    // doubling the coordinate sends edge pixels outside; the quadrant wrap
    // reflects them back, so a constant image stays constant
    let (w, h) = (10u32, 10u32);
    let pix = vec![42u8; (w * h * 3) as usize];
    let out = apply_transform(&pix, w, h, "2 * z", &f).unwrap();
    assert!(out.iter().all(|&b| b == 42));
}
