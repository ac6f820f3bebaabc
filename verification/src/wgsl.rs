//! Rendering an expression as WGSL shader source.
//!
//! The variable renders as `coord`, operators parenthesise both sides, the
//! magnitude function renders as WGSL's `length`, and a constant prints its
//! exact fixed-point value: integer part, a point, and the fraction digits
//! with trailing zeros trimmed (at least one digit), so `5` renders as `5.0`
//! and `1.5` as `1.5`. The conjugate has no WGSL intrinsic, so trees holding
//! one are left out by precondition ([`spec_wgsl_supported`], testable
//! through [`Expr::wgsl_supported`]). The output is exactly what
//! [`spec_wgsl`] states.

use vstd::prelude::*;

use vstd::string::StringExecFns;

use crate::fixed::SCALE;
use crate::parsing::{BinOp, Expr, Func};

verus! {

/// The character of a decimal digit value.
pub open spec fn digit_char(d: int) -> char {
    if d == 0 {
        '0'
    } else if d == 1 {
        '1'
    } else if d == 2 {
        '2'
    } else if d == 3 {
        '3'
    } else if d == 4 {
        '4'
    } else if d == 5 {
        '5'
    } else if d == 6 {
        '6'
    } else if d == 7 {
        '7'
    } else if d == 8 {
        '8'
    } else {
        '9'
    }
}

/// The decimal digits of a nonnegative integer, most significant first.
pub open spec fn spec_digits(n: int) -> Seq<char>
    decreases n,
    when n >= 0
{
    if n < 10 {
        seq![digit_char(n)]
    } else {
        spec_digits(n / 10) + seq![digit_char(n % 10)]
    }
}

/// The fraction digits of `fr` over place value `p`, trailing zeros trimmed,
/// at least one digit.
pub open spec fn spec_frac(fr: int, p: int) -> Seq<char>
    decreases p,
    when p >= 1
{
    seq![digit_char(fr / p)] + if fr % p == 0 || p <= 1 {
        Seq::empty()
    } else {
        spec_frac(fr % p, p / 10)
    }
}

/// How a constant prints: sign, integer part, point, trimmed fraction.
pub open spec fn spec_number_chars(n: i64) -> Seq<char> {
    let m = if n < 0 {
        -(n as int)
    } else {
        n as int
    };
    let sign: Seq<char> = if n < 0 {
        seq!['-']
    } else {
        Seq::empty()
    };
    sign + spec_digits(m / (SCALE as int)) + seq!['.'] + spec_frac(
        m % (SCALE as int),
        1_000_000,
    )
}

/// The WGSL spelling of a binary operator, spaces included.
pub open spec fn spec_op_chars(op: BinOp) -> Seq<char> {
    match op {
        BinOp::Add => seq![' ', '+', ' '],
        BinOp::Sub => seq![' ', '-', ' '],
        BinOp::Mul => seq![' ', '*', ' '],
        BinOp::Div => seq![' ', '/', ' '],
        BinOp::Pow => seq![' ', '^', ' '],
    }
}

/// The WGSL name of a registry function, opening parenthesis included.
pub open spec fn spec_func_chars(f: Func) -> Seq<char> {
    match f {
        Func::Sin => seq!['s', 'i', 'n', '('],
        Func::Cos => seq!['c', 'o', 's', '('],
        Func::Tan => seq!['t', 'a', 'n', '('],
        Func::Exp => seq!['e', 'x', 'p', '('],
        Func::Log => seq!['l', 'o', 'g', '('],
        Func::Sqrt => seq!['s', 'q', 'r', 't', '('],
        Func::Sinh => seq!['s', 'i', 'n', 'h', '('],
        Func::Cosh => seq!['c', 'o', 's', 'h', '('],
        Func::Tanh => seq!['t', 'a', 'n', 'h', '('],
        Func::Asin => seq!['a', 's', 'i', 'n', '('],
        Func::Acos => seq!['a', 'c', 'o', 's', '('],
        Func::Atan => seq!['a', 't', 'a', 'n', '('],
        Func::Abs => seq!['l', 'e', 'n', 'g', 't', 'h', '('],
        Func::Conj => seq!['c', 'o', 'n', 'j', '('],
    }
}

/// Whether every function node of the tree has a WGSL spelling: all of the
/// registry except the conjugate.
pub open spec fn spec_wgsl_supported(e: Expr) -> bool
    decreases e,
{
    match e {
        Expr::Number(n) => true,
        Expr::Variable => true,
        Expr::UnaryOp { op, expr } => spec_wgsl_supported(*expr),
        Expr::BinaryOp { left, op, right } => spec_wgsl_supported(*left) && spec_wgsl_supported(
            *right,
        ),
        Expr::Function { func, expr } => !(func matches Func::Conj) && spec_wgsl_supported(*expr),
    }
}

/// The WGSL source of an expression.
pub open spec fn spec_wgsl(e: Expr) -> Seq<char>
    decreases e,
{
    match e {
        Expr::Number(n) => spec_number_chars(n),
        Expr::Variable => seq!['c', 'o', 'o', 'r', 'd'],
        Expr::UnaryOp { op, expr } => seq!['(', '-'] + spec_wgsl(*expr) + seq![')'],
        Expr::BinaryOp { left, op, right } => seq!['('] + spec_wgsl(*left) + spec_op_chars(op)
            + spec_wgsl(*right) + seq![')'],
        Expr::Function { func, expr } => spec_func_chars(func) + spec_wgsl(*expr) + seq![')'],
    }
}

/// Append one digit character.
fn append_digit(s: &mut String, d: u64)
    requires
        d < 10,
    ensures
        final(s)@ == old(s)@ + seq![digit_char(d as int)],
{
    proof {
        reveal_strlit("0");
        reveal_strlit("1");
        reveal_strlit("2");
        reveal_strlit("3");
        reveal_strlit("4");
        reveal_strlit("5");
        reveal_strlit("6");
        reveal_strlit("7");
        reveal_strlit("8");
        reveal_strlit("9");
    }
    if d == 0 {
        s.append("0");
    } else if d == 1 {
        s.append("1");
    } else if d == 2 {
        s.append("2");
    } else if d == 3 {
        s.append("3");
    } else if d == 4 {
        s.append("4");
    } else if d == 5 {
        s.append("5");
    } else if d == 6 {
        s.append("6");
    } else if d == 7 {
        s.append("7");
    } else if d == 8 {
        s.append("8");
    } else {
        s.append("9");
    }
    proof {
        assert(s@ =~= old(s)@ + seq![digit_char(d as int)]);
    }
}

/// Append the decimal digits of `n`.
fn append_digits(s: &mut String, n: u64)
    ensures
        final(s)@ == old(s)@ + spec_digits(n as int),
    decreases n,
{
    if n < 10 {
        append_digit(s, n);
    } else {
        proof {
            vstd::arithmetic::div_mod::lemma_mod_bound(n as int, 10);
            vstd::arithmetic::div_mod::lemma_div_is_ordered(0, n as int, 10);
        }
        append_digits(s, n / 10);
        append_digit(s, n % 10);
        proof {
            assert(s@ =~= old(s)@ + spec_digits(n as int));
        }
    }
}

/// Append the trimmed fraction digits of `fr` over place value `p`.
fn append_frac(s: &mut String, fr: u64, p: u64)
    requires
        p == 1 || p == 10 || p == 100 || p == 1000 || p == 10_000 || p == 100_000 || p
            == 1_000_000,
        fr < 10 * p,
    ensures
        final(s)@ == old(s)@ + spec_frac(fr as int, p as int),
    decreases p,
{
    proof {
        vstd::arithmetic::div_mod::lemma_mod_bound(fr as int, p as int);
        vstd::arithmetic::div_mod::lemma_div_is_ordered(0, fr as int, p as int);
        vstd::arithmetic::div_mod::lemma_div_is_ordered(fr as int, 10 * p - 1, p as int);
        assert((10 * (p as int) - 1) / (p as int) <= 9) by (nonlinear_arith)
            requires
                p >= 1,
        ;
    }
    append_digit(s, fr / p);
    if fr % p != 0 && p > 1 {
        proof {
            vstd::arithmetic::div_mod::lemma_fundamental_div_mod(p as int, 10);
            vstd::arithmetic::div_mod::lemma_mod_bound(p as int, 10);
        }
        append_frac(s, fr % p, p / 10);
        proof {
            assert(s@ =~= old(s)@ + spec_frac(fr as int, p as int));
        }
    } else {
        proof {
            assert(s@ =~= old(s)@ + spec_frac(fr as int, p as int));
        }
    }
}

/// Append the rendering of a constant.
fn append_number(s: &mut String, n: i64)
    ensures
        final(s)@ == old(s)@ + spec_number_chars(n),
{
    proof {
        reveal_strlit("-");
        reveal_strlit(".");
    }
    let m: u64 = if n < 0 {
        s.append("-");
        (-(n as i128)) as u64
    } else {
        n as u64
    };
    append_digits(s, m / (SCALE as u64));
    s.append(".");
    proof {
        vstd::arithmetic::div_mod::lemma_mod_bound(m as int, SCALE as int);
    }
    append_frac(s, m % (SCALE as u64), 1_000_000);
    proof {
        assert(s@ =~= old(s)@ + spec_number_chars(n));
    }
}

impl Expr {
    /// Can this tree be rendered as WGSL? False exactly when it holds a
    /// conjugate, the one registry function the target language lacks.
    pub fn wgsl_supported(&self) -> (r: bool)
        ensures
            r == spec_wgsl_supported(*self),
        decreases *self,
    {
        match self {
            Expr::Number(_) => true,
            Expr::Variable => true,
            Expr::UnaryOp { op: _, expr } => expr.wgsl_supported(),
            Expr::BinaryOp { left, op: _, right } => left.wgsl_supported() && right.wgsl_supported(
            ),
            Expr::Function { func, expr } => !matches!(func, Func::Conj) && expr.wgsl_supported(),
        }
    }

    /// Render this expression as WGSL source, exactly as [`spec_wgsl`]
    /// states. A conjugate has no WGSL spelling: such trees are left out by
    /// the precondition rather than rendered wrongly or aborted on.
    pub fn to_wgsl(&self) -> (r: String)
        requires
            spec_wgsl_supported(*self),
        ensures
            r@ == spec_wgsl(*self),
    {
        let mut s = String::new();
        self.append_wgsl(&mut s);
        s
    }

    /// Append this expression's WGSL source to `s`.
    fn append_wgsl(&self, s: &mut String)
        requires
            spec_wgsl_supported(*self),
        ensures
            final(s)@ == old(s)@ + spec_wgsl(*self),
        decreases *self,
    {
        proof {
            reveal_strlit("(");
            reveal_strlit(")");
            reveal_strlit("(-");
            reveal_strlit("coord");
            reveal_strlit(" + ");
            reveal_strlit(" - ");
            reveal_strlit(" * ");
            reveal_strlit(" / ");
            reveal_strlit(" ^ ");
        }
        match self {
            Expr::Number(n) => {
                append_number(s, *n);
            },
            Expr::Variable => {
                s.append("coord");
                proof {
                    assert(s@ =~= old(s)@ + spec_wgsl(*self));
                }
            },
            Expr::UnaryOp { op: _, expr } => {
                s.append("(-");
                expr.append_wgsl(s);
                s.append(")");
                proof {
                    assert(s@ =~= old(s)@ + spec_wgsl(*self));
                }
            },
            Expr::BinaryOp { left, op, right } => {
                s.append("(");
                left.append_wgsl(s);
                match op {
                    BinOp::Add => s.append(" + "),
                    BinOp::Sub => s.append(" - "),
                    BinOp::Mul => s.append(" * "),
                    BinOp::Div => s.append(" / "),
                    BinOp::Pow => s.append(" ^ "),
                }
                right.append_wgsl(s);
                s.append(")");
                proof {
                    assert(s@ =~= old(s)@ + spec_wgsl(*self));
                }
            },
            Expr::Function { func, expr } => {
                proof {
                    reveal_strlit("sin(");
                    reveal_strlit("cos(");
                    reveal_strlit("tan(");
                    reveal_strlit("exp(");
                    reveal_strlit("log(");
                    reveal_strlit("sqrt(");
                    reveal_strlit("sinh(");
                    reveal_strlit("cosh(");
                    reveal_strlit("tanh(");
                    reveal_strlit("asin(");
                    reveal_strlit("acos(");
                    reveal_strlit("atan(");
                    reveal_strlit("length(");
                    reveal_strlit("conj(");
                }
                match func {
                    Func::Sin => s.append("sin("),
                    Func::Cos => s.append("cos("),
                    Func::Tan => s.append("tan("),
                    Func::Exp => s.append("exp("),
                    Func::Log => s.append("log("),
                    Func::Sqrt => s.append("sqrt("),
                    Func::Sinh => s.append("sinh("),
                    Func::Cosh => s.append("cosh("),
                    Func::Tanh => s.append("tanh("),
                    Func::Asin => s.append("asin("),
                    Func::Acos => s.append("acos("),
                    Func::Atan => s.append("atan("),
                    Func::Abs => s.append("length("),
                    Func::Conj => s.append("conj("),
                }
                expr.append_wgsl(s);
                s.append(")");
                proof {
                    assert(s@ =~= old(s)@ + spec_wgsl(*self));
                }
            },
        }
    }
}

} // verus!
