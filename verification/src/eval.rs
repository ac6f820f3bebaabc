//! Evaluation of expression trees.
//!
//! The arithmetic of a tree — sums, differences, products, quotients,
//! negation, conjugation, magnitude, and powers with an integral exponent —
//! is evaluated here, exactly as the specification functions state. The
//! transcendental functions of the registry, and powers with a non-integral
//! exponent, work in floating point and therefore cannot live in this
//! library: the caller supplies them through [`ComplexFuncs`], and every
//! result that comes back is saturated into the fixed-point range before the
//! evaluation goes on.

use vstd::prelude::*;

use crate::complex::{
    cabs, cadd, cconj, cdiv, cmul, cneg, cpow_uint, csub, spec_abs, spec_add, spec_conj, spec_div,
    spec_mul, spec_neg, spec_one, spec_pow_uint, spec_sub, Complex,
};
use crate::fixed::{fix_wf, sat, sat_i128, tdiv, tdiv_i128, SCALE};
use crate::parsing::{BinOp, Expr, Func};

verus! {

/// Largest magnitude of an integral exponent that is evaluated by repeated
/// products inside the library; beyond it the power is delegated to the
/// caller's [`ComplexFuncs::apply_pow`].
pub const MAX_INT_EXPONENT: i64 = 64;

/// Supplier of the transcendental functions of the registry and of powers
/// with a non-integral exponent.
///
/// These are computed in floating point, which this library cannot hold, so
/// an implementation stands outside it, just as the remapping pipeline takes
/// the function it remaps by from its caller. Each implementation fixes its
/// own mathematical meaning through the two spec functions; the library is
/// verified against that meaning, whatever it is, and saturates every
/// returned component before using it.
pub trait ComplexFuncs {
    /// The value this implementation gives to `f` applied at `z`.
    spec fn spec_apply(&self, f: Func, z: Complex) -> Complex;

    /// The value this implementation gives to `base` raised to the real
    /// exponent `exp_re` (in fixed-point units); an exponent's imaginary part
    /// never reaches a supplier.
    spec fn spec_pow(&self, base: Complex, exp_re: i64) -> Complex;

    /// Apply the named function `f` at `z`.
    fn apply_func(&self, f: Func, z: Complex) -> (r: Complex)
        requires
            z.wf(),
        ensures
            r == self.spec_apply(f, z),
    ;

    /// Raise `base` to the real exponent `exp_re`.
    fn apply_pow(&self, base: Complex, exp_re: i64) -> (r: Complex)
        requires
            base.wf(),
            fix_wf(exp_re),
        ensures
            r == self.spec_pow(base, exp_re),
    ;
}

/// A function supplier that hands every argument back unchanged: the
/// registry's functions all act as the identity and a power returns its
/// base. It keeps the evaluator usable, fully verified, where no
/// floating-point supplier is linked; expressions whose powers are integral
/// never consult it at all.
pub struct PassthroughFuncs;

impl ComplexFuncs for PassthroughFuncs {
    open spec fn spec_apply(&self, f: Func, z: Complex) -> Complex {
        z
    }

    open spec fn spec_pow(&self, base: Complex, exp_re: i64) -> Complex {
        base
    }

    fn apply_func(&self, f: Func, z: Complex) -> (r: Complex) {
        z
    }

    fn apply_pow(&self, base: Complex, exp_re: i64) -> (r: Complex) {
        base
    }
}

/// Saturate both components of a foreign result into the fixed-point range.
pub open spec fn spec_sat_c(z: Complex) -> Complex {
    Complex { re: sat(z.re as int), im: sat(z.im as int) }
}

/// Exec mirror of [`spec_sat_c`].
pub fn sat_c(z: Complex) -> (r: Complex)
    ensures
        r == spec_sat_c(z),
        r.wf(),
{
    Complex { re: sat_i128(z.re as i128), im: sat_i128(z.im as i128) }
}

/// The value of `base ^ exp`: an integral exponent of magnitude at most
/// [`MAX_INT_EXPONENT`] is evaluated by repeated products (negative ones
/// through the reciprocal); any other exponent is delegated to the caller's
/// power. The exponent's imaginary part is ignored throughout.
pub open spec fn spec_pow<F: ComplexFuncs>(base: Complex, exp: Complex, funcs: F) -> Complex {
    let n = tdiv(exp.re as int, SCALE as int);
    if n * SCALE == exp.re && 0 <= n <= MAX_INT_EXPONENT {
        spec_pow_uint(base, n as nat)
    } else if n * SCALE == exp.re && -MAX_INT_EXPONENT <= n < 0 {
        spec_div(spec_one(), spec_pow_uint(base, (-n) as nat))
    } else {
        spec_sat_c(funcs.spec_pow(base, exp.re))
    }
}

/// The value of an expression at `z`, under the function supplier `funcs`.
pub open spec fn spec_eval<F: ComplexFuncs>(e: Expr, z: Complex, funcs: F) -> Complex
    decreases e,
{
    match e {
        Expr::Number(n) => Complex { re: sat(n as int), im: 0 },
        Expr::Variable => z,
        Expr::UnaryOp { op, expr } => spec_neg(spec_eval(*expr, z, funcs)),
        Expr::BinaryOp { left, op, right } => {
            let l = spec_eval(*left, z, funcs);
            let r = spec_eval(*right, z, funcs);
            match op {
                BinOp::Add => spec_add(l, r),
                BinOp::Sub => spec_sub(l, r),
                BinOp::Mul => spec_mul(l, r),
                BinOp::Div => spec_div(l, r),
                BinOp::Pow => spec_pow(l, r, funcs),
            }
        },
        Expr::Function { func, expr } => {
            let v = spec_eval(*expr, z, funcs);
            match func {
                Func::Abs => spec_abs(v),
                Func::Conj => spec_conj(v),
                _ => spec_sat_c(funcs.spec_apply(func, v)),
            }
        },
    }
}

impl Expr {
    /// Evaluate this expression at `z`. A pure recursive descent: the result
    /// is exactly the value [`spec_eval`] states.
    pub fn evaluate<F: ComplexFuncs>(&self, z: Complex, funcs: &F) -> (r: Complex)
        requires
            z.wf(),
        ensures
            r == spec_eval(*self, z, *funcs),
            r.wf(),
        decreases *self,
    {
        match self {
            Expr::Number(n) => Complex { re: sat_i128(*n as i128), im: 0 },
            Expr::Variable => z,
            Expr::UnaryOp { op: _, expr } => cneg(expr.evaluate(z, funcs)),
            Expr::BinaryOp { left, op, right } => {
                let l = left.evaluate(z, funcs);
                let r = right.evaluate(z, funcs);
                match op {
                    BinOp::Add => cadd(l, r),
                    BinOp::Sub => csub(l, r),
                    BinOp::Mul => cmul(l, r),
                    BinOp::Div => cdiv(l, r),
                    BinOp::Pow => {
                        let n = tdiv_i128(r.re as i128, SCALE as i128);
                        if n * (SCALE as i128) == r.re as i128 && 0 <= n && n
                            <= MAX_INT_EXPONENT as i128 {
                            cpow_uint(l, n as u64)
                        } else if n * (SCALE as i128) == r.re as i128 && -(MAX_INT_EXPONENT as i128)
                            <= n && n < 0 {
                            cdiv(Complex { re: SCALE, im: 0 }, cpow_uint(l, (-n) as u64))
                        } else {
                            sat_c(funcs.apply_pow(l, r.re))
                        }
                    },
                }
            },
            Expr::Function { func, expr } => {
                let v = expr.evaluate(z, funcs);
                match func {
                    Func::Abs => cabs(v),
                    Func::Conj => cconj(v),
                    _ => sat_c(funcs.apply_func(*func, v)),
                }
            },
        }
    }
}

} // verus!
