//! Polynomials and rational functions over the fixed-point complex numbers,
//! as explicit coefficient lists.

use vstd::prelude::*;

use crate::complex::{
    cadd, cdiv, cmul, lemma_mul_bound, spec_add, spec_div, spec_mul, spec_norm_sqr, spec_one,
    spec_pow_uint, spec_zero, Complex,
};
use crate::eval::{spec_eval, spec_pow, ComplexFuncs, MAX_INT_EXPONENT};
use crate::fixed::{fix_wf, sat, tdiv, FIX_MAX, SCALE};
use crate::parsing::{BinOp, Expr};

verus! {

/// Every coefficient is a well-formed fixed-point scalar.
pub open spec fn coeffs_wf(s: Seq<i64>) -> bool {
    forall|i: int| 0 <= i < s.len() ==> fix_wf(#[trigger] s[i])
}

/// The polynomial fold after `k` coefficients: the accumulated sum and the
/// power of `z` the next term would use.
pub open spec fn spec_poly_state(coeffs: Seq<i64>, z: Complex, k: int) -> (Complex, Complex)
    decreases k,
    when 0 <= k <= coeffs.len()
{
    if k == 0 {
        (spec_zero(), spec_one())
    } else {
        let prev = spec_poly_state(coeffs, z, k - 1);
        (
            spec_add(prev.0, spec_mul(Complex { re: coeffs[k - 1], im: 0 }, prev.1)),
            spec_mul(prev.1, z),
        )
    }
}

/// The value of the polynomial with coefficients `coeffs` at `z`
/// (`coeffs[k]` scales `z^k`).
pub open spec fn spec_poly_eval(coeffs: Seq<i64>, z: Complex) -> Complex {
    spec_poly_state(coeffs, z, coeffs.len() as int).0
}

/// Evaluate the polynomial at `z` by the running-power fold.
pub fn eval_polynomial(coefficients: &Vec<i64>, z: Complex) -> (r: Complex)
    requires
        z.wf(),
        coeffs_wf(coefficients@),
    ensures
        r == spec_poly_eval(coefficients@, z),
        r.wf(),
{
    let mut result = Complex { re: 0, im: 0 };
    let mut z_pow = Complex { re: SCALE, im: 0 };
    let mut i: usize = 0;
    let n = coefficients.len();
    while i < n
        invariant
            0 <= i <= n,
            n == coefficients@.len(),
            z.wf(),
            coeffs_wf(coefficients@),
            result.wf(),
            z_pow.wf(),
            (result, z_pow) == spec_poly_state(coefficients@, z, i as int),
        decreases n - i,
    {
        let c = Complex { re: coefficients[i], im: 0 };
        result = cadd(result, cmul(c, z_pow));
        z_pow = cmul(z_pow, z);
        i = i + 1;
    }
    result
}

/// The expression tree of the polynomial's first `k` terms: a left fold of
/// sums of `c * z ^ k` terms over a zero seed, mirroring the running fold.
pub open spec fn spec_poly_expr(coeffs: Seq<i64>, k: int) -> Expr
    decreases k,
    when 0 <= k <= coeffs.len()
{
    if k == 0 {
        Expr::Number(0)
    } else {
        Expr::BinaryOp {
            left: Box::new(spec_poly_expr(coeffs, k - 1)),
            op: BinOp::Add,
            right: Box::new(
                Expr::BinaryOp {
                    left: Box::new(Expr::Number(coeffs[k - 1])),
                    op: BinOp::Mul,
                    right: Box::new(
                        Expr::BinaryOp {
                            left: Box::new(Expr::Variable),
                            op: BinOp::Pow,
                            right: Box::new(Expr::Number(((k - 1) * SCALE) as i64)),
                        },
                    ),
                },
            ),
        }
    }
}

/// Build the expression tree of the polynomial with the given coefficients.
/// The one bound is the machine's: the largest exponent literal, in units,
/// must fit the number type.
pub fn construct_polynomial(coefficients: &Vec<i64>) -> (r: Expr)
    requires
        coefficients@.len() * SCALE <= i64::MAX,
    ensures
        r == spec_poly_expr(coefficients@, coefficients@.len() as int),
{
    let n = coefficients.len();
    let mut acc = Expr::Number(0);
    let mut i: usize = 0;
    while i < n
        invariant
            0 <= i <= n,
            n == coefficients@.len(),
            n * SCALE <= i64::MAX,
            acc == spec_poly_expr(coefficients@, i as int),
        decreases n - i,
    {
        proof {
            assert(0 <= (i as int) * (SCALE as int) && (i as int) * (SCALE as int) <= i64::MAX)
                by (nonlinear_arith)
                requires
                    0 <= i < n,
                    (n as int) * (SCALE as int) <= i64::MAX,
                    SCALE == 10_000_000i64,
            ;
        }
        let term = Expr::BinaryOp {
            left: Box::new(Expr::Number(coefficients[i])),
            op: BinOp::Mul,
            right: Box::new(
                Expr::BinaryOp {
                    left: Box::new(Expr::Variable),
                    op: BinOp::Pow,
                    right: Box::new(Expr::Number((i as i64) * SCALE)),
                },
            ),
        };
        acc = Expr::BinaryOp { left: Box::new(acc), op: BinOp::Add, right: Box::new(term) };
        i = i + 1;
    }
    acc
}

/// Law: the polynomial tree evaluates to the polynomial's value, under every
/// function supplier, as far as the tree's power nodes carry exponents the
/// evaluator computes by repeated products itself (degrees beyond
/// [`MAX_INT_EXPONENT`] delegate their power to the supplier).
pub proof fn lemma_polynomial_tree_value<F: ComplexFuncs>(
    coeffs: Seq<i64>,
    z: Complex,
    funcs: F,
    k: int,
)
    requires
        0 <= k <= coeffs.len(),
        k <= MAX_INT_EXPONENT + 1,
        coeffs_wf(coeffs),
    ensures
        spec_eval(spec_poly_expr(coeffs, k), z, funcs) == spec_poly_state(coeffs, z, k).0,
        spec_poly_state(coeffs, z, k).1 == spec_pow_uint(z, k as nat),
    decreases k,
{
    if k == 0 {
        assert(spec_eval(spec_poly_expr(coeffs, 0), z, funcs) == (Complex {
            re: sat(0),
            im: 0,
        }));
    } else {
        lemma_polynomial_tree_value(coeffs, z, funcs, k - 1);
        let ex = (k - 1) * SCALE;
        assert(0 <= ex <= 64 * SCALE && ex <= FIX_MAX) by (nonlinear_arith)
            requires
                0 <= k - 1 <= 64,
                ex == (k - 1) * SCALE,
                SCALE == 10_000_000i64,
                FIX_MAX == 1_000_000_000_000_000i64,
        ;
        // the exponent token evaluates to itself and is an exact multiple of
        // the scale
        let expv = spec_eval(Expr::Number((ex) as i64), z, funcs);
        assert(expv == (Complex { re: ex as i64, im: 0 }));
        vstd::arithmetic::div_mod::lemma_div_multiples_vanish(k - 1, SCALE as int);
        assert((SCALE as int) * (k - 1) == ex && (k - 1) * (SCALE as int) == ex)
            by (nonlinear_arith)
            requires
                ex == (k - 1) * SCALE,
        ;
        assert(tdiv(ex, SCALE as int) == k - 1);
        assert(spec_pow(z, Complex { re: ex as i64, im: 0 }, funcs) == spec_pow_uint(
            z,
            (k - 1) as nat,
        ));
        assert(fix_wf(coeffs[k - 1]) && sat(coeffs[k - 1] as int) == coeffs[k - 1]);
        let exn = Expr::Number(ex as i64);
        let powe = Expr::BinaryOp {
            left: Box::new(Expr::Variable),
            op: BinOp::Pow,
            right: Box::new(exn),
        };
        let mule = Expr::BinaryOp {
            left: Box::new(Expr::Number(coeffs[k - 1])),
            op: BinOp::Mul,
            right: Box::new(powe),
        };
        assert(spec_eval(Expr::Variable, z, funcs) == z);
        assert(spec_eval(exn, z, funcs) == (Complex { re: ex as i64, im: 0 }));
        assert(spec_eval(powe, z, funcs) == spec_pow(z, Complex { re: ex as i64, im: 0 }, funcs));
        assert(spec_eval(Expr::Number(coeffs[k - 1]), z, funcs) == (Complex {
            re: coeffs[k - 1],
            im: 0,
        }));
        assert(spec_eval(mule, z, funcs) == spec_mul(
            Complex { re: coeffs[k - 1], im: 0 },
            spec_pow_uint(z, (k - 1) as nat),
        ));
        assert(spec_poly_expr(coeffs, k) == (Expr::BinaryOp {
            left: Box::new(spec_poly_expr(coeffs, k - 1)),
            op: BinOp::Add,
            right: Box::new(mule),
        }));
        assert(spec_eval(spec_poly_expr(coeffs, k), z, funcs) == spec_add(
            spec_eval(spec_poly_expr(coeffs, k - 1), z, funcs),
            spec_eval(mule, z, funcs),
        ));
    }
}

/// The squared norm, in squared units, below which the rational evaluator
/// treats a denominator as zero: the square of one millionth.
pub const NEAR_ZERO_NORM_SQR: i64 = 100;

/// The value of a rational function at `z`: zero when the denominator is
/// nearly zero, the quotient otherwise.
pub open spec fn spec_rational_eval(num: Seq<i64>, den: Seq<i64>, z: Complex) -> Complex {
    let nv = spec_poly_eval(num, z);
    let dv = spec_poly_eval(den, z);
    if spec_norm_sqr(dv) < NEAR_ZERO_NORM_SQR {
        spec_zero()
    } else {
        spec_div(nv, dv)
    }
}

/// A rational function: numerator and denominator coefficient lists.
pub struct RationalFn {
    pub numerator: Vec<i64>,
    pub denominator: Vec<i64>,
}

/// Pair the coefficient lists of a rational function.
pub fn construct_rational_function(numerator: Vec<i64>, denominator: Vec<i64>) -> (r: RationalFn)
    ensures
        r.numerator == numerator,
        r.denominator == denominator,
{
    RationalFn { numerator, denominator }
}

impl RationalFn {
    /// Evaluate the rational function at `z`: both polynomials by the fold,
    /// then the guarded quotient.
    pub fn eval(&self, z: Complex) -> (r: Complex)
        requires
            z.wf(),
            coeffs_wf(self.numerator@),
            coeffs_wf(self.denominator@),
        ensures
            r == spec_rational_eval(self.numerator@, self.denominator@, z),
            r.wf(),
    {
        let nv = eval_polynomial(&self.numerator, z);
        let dv = eval_polynomial(&self.denominator, z);
        proof {
            lemma_mul_bound(dv.re as int, dv.re as int);
            lemma_mul_bound(dv.im as int, dv.im as int);
        }
        let norm_sqr = dv.re as i128 * dv.re as i128 + dv.im as i128 * dv.im as i128;
        if norm_sqr < NEAR_ZERO_NORM_SQR as i128 {
            Complex { re: 0, im: 0 }
        } else {
            cdiv(nv, dv)
        }
    }
}

} // verus!
