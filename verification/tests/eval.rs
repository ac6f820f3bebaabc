use holomorphic::complex::Complex;
use holomorphic::eval::ComplexFuncs;
use holomorphic::fixed::{FIX_MAX, SCALE};
use holomorphic::parsing::{Expr, Func};

/// Transcendental functions backed by `num_complex` on `f64`, the supplier an
/// application hands to the library.
struct FloatFuncs;

fn to_f64(z: Complex) -> num_complex::Complex<f64> {
    num_complex::Complex::new(z.re as f64 / SCALE as f64, z.im as f64 / SCALE as f64)
}

fn from_f64(w: num_complex::Complex<f64>) -> Complex {
    let cvt = |x: f64| -> i64 {
        if x.is_nan() {
            FIX_MAX
        } else {
            (x * SCALE as f64) as i64
        }
    };
    Complex {
        re: cvt(w.re),
        im: cvt(w.im),
    }
}

impl ComplexFuncs for FloatFuncs {
    // The two spec functions are ghost: they are erased from compiled code and
    // never run, but an impl outside the verified library must still name them.
    fn spec_apply(&self, _f: Func, z: Complex) -> Complex {
        z
    }

    fn spec_pow(&self, base: Complex, _exp_re: i64) -> Complex {
        base
    }

    fn apply_func(&self, f: Func, z: Complex) -> Complex {
        let w = to_f64(z);
        let r = match f {
            Func::Sin => w.sin(),
            Func::Cos => w.cos(),
            Func::Tan => w.tan(),
            Func::Exp => w.exp(),
            Func::Log => w.ln(),
            Func::Sqrt => w.sqrt(),
            Func::Sinh => w.sinh(),
            Func::Cosh => w.cosh(),
            Func::Tanh => w.tanh(),
            Func::Asin => w.asin(),
            Func::Acos => w.acos(),
            Func::Atan => w.atan(),
            Func::Abs => num_complex::Complex::new(w.norm(), 0.0),
            Func::Conj => w.conj(),
        };
        from_f64(r)
    }

    fn apply_pow(&self, base: Complex, exp_re: i64) -> Complex {
        from_f64(to_f64(base).powf(exp_re as f64 / SCALE as f64))
    }
}

fn c(re: i64, im: i64) -> Complex {
    Complex {
        re: re * SCALE,
        im: im * SCALE,
    }
}

#[test]
fn float_backed_sine_is_close() {
    let f = FloatFuncs;
    let e = Expr::parse("sin(z)").unwrap();
    let s = e.evaluate(c(1, 0), &f);
    // sin(1) = 0.841470...
    assert!(s.re > 8_400_000 && s.re < 8_420_000, "got {}", s.re);
    assert_eq!(s.im, 0);
}

#[test]
fn quadratic_matches_hand_computation() {
    let f = FloatFuncs;
    let e = Expr::parse("(z ^ 2) - 3 * z + 1").unwrap();
    let samples = [
        c(0, 0),
        c(1, 0),
        c(0, 1),
        c(1, 1),
        c(-1, -1),
        c(2, -2),
        c(-2, 2),
        c(3, 3),
        c(-3, -3),
        Complex {
            re: 15_000_000,
            im: -15_000_000,
        },
    ];
    for &z in samples.iter() {
        let got = e.evaluate(z, &f);
        // z * z - 3 * z + 1 over the library's own arithmetic
        let zz = holomorphic::complex::cmul(z, z);
        let tz = holomorphic::complex::cmul(c(3, 0), z);
        let expected = holomorphic::complex::cadd(
            holomorphic::complex::csub(zz, tz),
            c(1, 0),
        );
        assert_eq!(got, expected, "failed for z = ({}, {})", z.re, z.im);
    }
}

#[test]
fn integral_powers_are_exact() {
    let f = FloatFuncs;
    let e = Expr::parse("z ^ 2").unwrap();
    let z = c(3, 0);
    assert_eq!(e.evaluate(z, &f), c(9, 0));
    let e3 = Expr::parse("z ^ 3").unwrap();
    assert_eq!(e3.evaluate(z, &f), c(27, 0));
    // a negative integral exponent goes through the reciprocal
    let em1 = Expr::parse("z ^ (0 - 1)").unwrap();
    assert_eq!(em1.evaluate(c(2, 0), &f), Complex { re: SCALE / 2, im: 0 });
}

#[test]
fn magnitude_and_conjugate_are_exact() {
    let f = FloatFuncs;
    let abs = Expr::parse("abs(z)").unwrap();
    assert_eq!(abs.evaluate(c(3, 4), &f), c(5, 0));
    let conj = Expr::parse("conj(z)").unwrap();
    assert_eq!(conj.evaluate(c(3, 4), &f), c(3, -4));
}

#[test]
fn division_by_zero_saturates() {
    let f = FloatFuncs;
    let e = Expr::parse("1 / z").unwrap();
    let v = e.evaluate(c(0, 0), &f);
    assert_eq!(v.re, FIX_MAX);
    assert_eq!(v.im, FIX_MAX);
}

#[test]
fn complex_division_matches_formula() {
    let f = FloatFuncs;
    // (1 + i) / (1 - i) = i
    let e = Expr::parse("(1 + z) / (1 - z)").unwrap();
    let v = e.evaluate(c(0, 1), &f);
    assert_eq!(v, c(0, 1));
}
