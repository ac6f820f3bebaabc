//! Expression trees over the variable `z`, and their parser.
//!
//! The grammar, lowest precedence first: an expression is a chain of terms
//! under `+` and `-`; a term a chain of factors under `*` and `/`; a factor a
//! chain of primaries under `^` (deliberately folded left, not the
//! mathematical right fold); a primary is a number, `z`, a registry function applied to a
//! parenthesised expression, a parenthesised expression, or `-` before a
//! factor. A `-` directly before a number literal binds to the literal.
//! Whitespace may appear anywhere between tokens. Numbers are unsigned
//! decimals with an optional fraction; fraction digits beyond the fixed-point
//! precision are dropped, and a literal beyond the representable range
//! saturates (and is later caught by the singularity threshold).
//!
//! The parser is specified exactly: tokenizing and parsing are spec
//! functions over the byte sequence, and the executable parser returns
//! precisely their result, errors included.

use vstd::prelude::*;

use vstd::string::StringSliceAdditionalSpecFns;

use crate::fixed::{sat, FIX_MAX, SCALE};

verus! {

/// The registry of named functions the grammar accepts.
#[derive(Clone, Copy, PartialEq, Eq, Structural, Debug)]
pub enum Func {
    Sin,
    Cos,
    Tan,
    Exp,
    Log,
    Sqrt,
    Sinh,
    Cosh,
    Tanh,
    Asin,
    Acos,
    Atan,
    Abs,
    Conj,
}

/// Unary operators.
#[derive(Clone, Copy, PartialEq, Eq, Structural, Debug)]
pub enum UnOp {
    Neg,
}

/// Binary operators.
#[derive(Clone, Copy, PartialEq, Eq, Structural, Debug)]
pub enum BinOp {
    Add,
    Sub,
    Mul,
    Div,
    Pow,
}

/// An expression tree. `Number` holds a fixed-point constant (see
/// [`crate::fixed`]); `Variable` is the input value `z`.
#[allow(inconsistent_fields)]
#[derive(PartialEq, Eq, Debug)]
pub enum Expr {
    Number(i64),
    Variable,
    UnaryOp { op: UnOp, expr: Box<Expr> },
    BinaryOp { left: Box<Expr>, op: BinOp, right: Box<Expr> },
    Function { func: Func, expr: Box<Expr> },
}

/// Why an input failed to parse, at which byte.
#[derive(Clone, Copy, PartialEq, Eq, Structural, Debug)]
pub enum ParseErrorKind {
    /// A byte or word that belongs to no token of the grammar.
    UnknownToken,
    /// The input ended where a primary or a closing parenthesis was owed.
    UnexpectedEnd,
    /// A token that cannot stand here.
    UnexpectedToken,
    /// A full expression was parsed but input remains.
    TrailingInput,
}

/// A failed parse: the reason and the byte position it was noticed at.
#[derive(Clone, Copy, PartialEq, Eq, Structural, Debug)]
pub struct ParseError {
    pub pos: usize,
    pub kind: ParseErrorKind,
}

/// The tokens of the grammar. A number is already in fixed point, always
/// nonnegative (a leading minus is its own token).
#[derive(Clone, Copy, PartialEq, Eq, Structural, Debug)]
pub enum TokenKind {
    Plus,
    Minus,
    Star,
    Slash,
    Caret,
    LParen,
    RParen,
    Variable,
    Name(Func),
    Number(i64),
}

/// A token and the byte position it starts at.
#[derive(Clone, Copy, PartialEq, Eq, Structural, Debug)]
pub struct Token {
    pub kind: TokenKind,
    pub pos: usize,
}

/// What scanning at one position yields.
#[derive(Clone, Copy, PartialEq, Eq, Structural, Debug)]
pub enum NextTok {
    /// Only whitespace remains.
    End,
    /// One token, and the position right after it.
    Tok(Token, usize),
    /// A byte or word outside the grammar.
    Fail(ParseError),
}

/// A number token carries a value the evaluator accepts.
pub open spec fn tok_num_wf(t: Token) -> bool {
    match t.kind {
        TokenKind::Number(v) => 0 <= v <= FIX_MAX,
        _ => true,
    }
}

/// Whitespace: space, tab, line feed, carriage return.
pub open spec fn is_ws(b: u8) -> bool {
    b == 32 || b == 9 || b == 10 || b == 13
}

/// An ASCII decimal digit.
pub open spec fn is_digit(b: u8) -> bool {
    48 <= b <= 57
}

/// An ASCII lowercase letter, the alphabet of `z` and the registry names.
pub open spec fn is_alpha(b: u8) -> bool {
    97 <= b <= 122
}

/// First position at or after `i` that holds no whitespace.
pub open spec fn spec_skip_ws(s: Seq<u8>, i: int) -> int
    decreases s.len() - i,
    when 0 <= i <= s.len()
{
    if i < s.len() && is_ws(s[i]) {
        spec_skip_ws(s, i + 1)
    } else {
        i
    }
}

/// First position at or after `i` that holds no digit.
pub open spec fn spec_end_digits(s: Seq<u8>, i: int) -> int
    decreases s.len() - i,
    when 0 <= i <= s.len()
{
    if i < s.len() && is_digit(s[i]) {
        spec_end_digits(s, i + 1)
    } else {
        i
    }
}

/// First position at or after `i` that holds no lowercase letter.
pub open spec fn spec_end_alpha(s: Seq<u8>, i: int) -> int
    decreases s.len() - i,
    when 0 <= i <= s.len()
{
    if i < s.len() && is_alpha(s[i]) {
        spec_end_alpha(s, i + 1)
    } else {
        i
    }
}

/// The integer the digits `s[j..k]` spell, most significant first.
pub open spec fn spec_digits_val(s: Seq<u8>, j: int, k: int) -> int
    decreases k - j,
    when j <= k
{
    if j >= k {
        0
    } else {
        spec_digits_val(s, j, k - 1) * 10 + (s[k - 1] - 48)
    }
}

/// The fixed-point value of the fraction digits `s[j..k]`, each worth `p`
/// units, then a tenth of that: digits beyond the precision contribute
/// nothing.
pub open spec fn spec_frac_val(s: Seq<u8>, j: int, k: int, p: int) -> int
    decreases k - j,
    when j <= k
{
    if j >= k || p <= 0 {
        0
    } else {
        (s[j] - 48) * p + spec_frac_val(s, j + 1, k, p / 10)
    }
}

/// The token a word of lowercase letters stands for: the variable `z` or a
/// registry name.
pub open spec fn spec_word_token(w: Seq<u8>) -> Option<TokenKind> {
    if w.len() == 1 && w[0] == 122 {
        Some(TokenKind::Variable)
    } else if w.len() == 3 && w[0] == 115 && w[1] == 105 && w[2] == 110 {
        Some(TokenKind::Name(Func::Sin))
    } else if w.len() == 3 && w[0] == 99 && w[1] == 111 && w[2] == 115 {
        Some(TokenKind::Name(Func::Cos))
    } else if w.len() == 3 && w[0] == 116 && w[1] == 97 && w[2] == 110 {
        Some(TokenKind::Name(Func::Tan))
    } else if w.len() == 3 && w[0] == 101 && w[1] == 120 && w[2] == 112 {
        Some(TokenKind::Name(Func::Exp))
    } else if w.len() == 3 && w[0] == 108 && w[1] == 111 && w[2] == 103 {
        Some(TokenKind::Name(Func::Log))
    } else if w.len() == 4 && w[0] == 115 && w[1] == 113 && w[2] == 114 && w[3] == 116 {
        Some(TokenKind::Name(Func::Sqrt))
    } else if w.len() == 4 && w[0] == 115 && w[1] == 105 && w[2] == 110 && w[3] == 104 {
        Some(TokenKind::Name(Func::Sinh))
    } else if w.len() == 4 && w[0] == 99 && w[1] == 111 && w[2] == 115 && w[3] == 104 {
        Some(TokenKind::Name(Func::Cosh))
    } else if w.len() == 4 && w[0] == 116 && w[1] == 97 && w[2] == 110 && w[3] == 104 {
        Some(TokenKind::Name(Func::Tanh))
    } else if w.len() == 4 && w[0] == 97 && w[1] == 115 && w[2] == 105 && w[3] == 110 {
        Some(TokenKind::Name(Func::Asin))
    } else if w.len() == 4 && w[0] == 97 && w[1] == 99 && w[2] == 111 && w[3] == 115 {
        Some(TokenKind::Name(Func::Acos))
    } else if w.len() == 4 && w[0] == 97 && w[1] == 116 && w[2] == 97 && w[3] == 110 {
        Some(TokenKind::Name(Func::Atan))
    } else if w.len() == 3 && w[0] == 97 && w[1] == 98 && w[2] == 115 {
        Some(TokenKind::Name(Func::Abs))
    } else if w.len() == 4 && w[0] == 99 && w[1] == 111 && w[2] == 110 && w[3] == 106 {
        Some(TokenKind::Name(Func::Conj))
    } else {
        None
    }
}

/// The number token starting at the digit `s[j]`, and the position after it:
/// a digit run, optionally a point followed by another digit run.
pub open spec fn spec_number_token(s: Seq<u8>, j: int) -> (Token, int)
    recommends
        0 <= j < s.len(),
{
    let k = spec_end_digits(s, j + 1);
    if k < s.len() && s[k] == 46 && k + 1 < s.len() && is_digit(s[k + 1]) {
        let fk = spec_end_digits(s, k + 1);
        (
            Token {
                kind: TokenKind::Number(
                    sat(
                        spec_digits_val(s, j, k) * SCALE + spec_frac_val(s, k + 1, fk, 1_000_000),
                    ),
                ),
                pos: j as usize,
            },
            fk,
        )
    } else {
        (
            Token { kind: TokenKind::Number(sat(spec_digits_val(s, j, k) * SCALE)), pos: j as usize },
            k,
        )
    }
}

/// Scan one token at or after `i`.
pub open spec fn spec_next_token(s: Seq<u8>, i: int) -> NextTok
    recommends
        0 <= i <= s.len(),
{
    let j = spec_skip_ws(s, i);
    if j >= s.len() {
        NextTok::End
    } else {
        let b = s[j];
        if b == 43 {
            NextTok::Tok(Token { kind: TokenKind::Plus, pos: j as usize }, (j + 1) as usize)
        } else if b == 45 {
            NextTok::Tok(Token { kind: TokenKind::Minus, pos: j as usize }, (j + 1) as usize)
        } else if b == 42 {
            NextTok::Tok(Token { kind: TokenKind::Star, pos: j as usize }, (j + 1) as usize)
        } else if b == 47 {
            NextTok::Tok(Token { kind: TokenKind::Slash, pos: j as usize }, (j + 1) as usize)
        } else if b == 94 {
            NextTok::Tok(Token { kind: TokenKind::Caret, pos: j as usize }, (j + 1) as usize)
        } else if b == 40 {
            NextTok::Tok(Token { kind: TokenKind::LParen, pos: j as usize }, (j + 1) as usize)
        } else if b == 41 {
            NextTok::Tok(Token { kind: TokenKind::RParen, pos: j as usize }, (j + 1) as usize)
        } else if is_digit(b) {
            let tk = spec_number_token(s, j);
            NextTok::Tok(tk.0, tk.1 as usize)
        } else if is_alpha(b) {
            let k = spec_end_alpha(s, j + 1);
            match spec_word_token(s.subrange(j, k)) {
                Some(kind) => NextTok::Tok(Token { kind, pos: j as usize }, k as usize),
                None => NextTok::Fail(
                    ParseError { pos: j as usize, kind: ParseErrorKind::UnknownToken },
                ),
            }
        } else {
            NextTok::Fail(ParseError { pos: j as usize, kind: ParseErrorKind::UnknownToken })
        }
    }
}

/// The token sequence of `s` from position `i` on.
pub open spec fn spec_tokenize(s: Seq<u8>, i: int) -> Result<Seq<Token>, ParseError>
    decreases s.len() - i,
    when 0 <= i <= s.len()
{
    match spec_next_token(s, i) {
        NextTok::End => Ok(Seq::empty()),
        NextTok::Fail(e) => Err(e),
        NextTok::Tok(t, k) => {
            if i < k <= s.len() {
                match spec_tokenize(s, k as int) {
                    Ok(rest) => Ok(seq![t] + rest),
                    Err(e) => Err(e),
                }
            } else {
                Err(ParseError { pos: t.pos, kind: ParseErrorKind::UnknownToken })
            }
        },
    }
}

/// Everything before the end of a digit run is a digit.
pub proof fn lemma_end_digits_range(s: Seq<u8>, i: int)
    requires
        0 <= i <= s.len(),
    ensures
        i <= spec_end_digits(s, i) <= s.len(),
        forall|t: int| i <= t < spec_end_digits(s, i) ==> is_digit(#[trigger] s[t]),
    decreases s.len() - i,
{
    if i < s.len() && is_digit(s[i]) {
        lemma_end_digits_range(s, i + 1);
    }
}

/// Is the byte at `j` whitespace?
fn ws_at(bytes: &[u8], j: usize) -> (r: bool)
    requires
        j < bytes@.len(),
    ensures
        r == is_ws(bytes@[j as int]),
{
    let b = bytes[j];
    b == 32 || b == 9 || b == 10 || b == 13
}

/// Is the byte at `j` a digit?
fn digit_at(bytes: &[u8], j: usize) -> (r: bool)
    requires
        j < bytes@.len(),
    ensures
        r == is_digit(bytes@[j as int]),
{
    let b = bytes[j];
    48 <= b && b <= 57
}

/// First position at or after `from` that holds no digit.
fn scan_digits(bytes: &[u8], from: usize) -> (k: usize)
    requires
        from <= bytes@.len(),
    ensures
        k as int == spec_end_digits(bytes@, from as int),
        from <= k <= bytes@.len(),
{
    let n = bytes.len();
    let mut k = from;
    while k < n && digit_at(bytes, k)
        invariant
            from <= k <= n,
            n == bytes@.len(),
            spec_end_digits(bytes@, from as int) == spec_end_digits(bytes@, k as int),
        decreases n - k,
    {
        k = k + 1;
    }
    k
}

/// The word token starting at `j` with end `k`: `z`, or a registry name.
fn match_word(bytes: &[u8], j: usize, k: usize) -> (r: Option<TokenKind>)
    requires
        j < k <= bytes@.len(),
    ensures
        r == spec_word_token(bytes@.subrange(j as int, k as int)),
{
    proof {
        let w = bytes@.subrange(j as int, k as int);
        assert(w.len() == k - j);
        assert(forall|t: int| 0 <= t < w.len() ==> w[t] == bytes@[j + t]);
    }
    let n = k - j;
    if n == 1 && bytes[j] == 122 {
        Some(TokenKind::Variable)
    } else if n == 3 && bytes[j] == 115 && bytes[j + 1] == 105 && bytes[j + 2] == 110 {
        Some(TokenKind::Name(Func::Sin))
    } else if n == 3 && bytes[j] == 99 && bytes[j + 1] == 111 && bytes[j + 2] == 115 {
        Some(TokenKind::Name(Func::Cos))
    } else if n == 3 && bytes[j] == 116 && bytes[j + 1] == 97 && bytes[j + 2] == 110 {
        Some(TokenKind::Name(Func::Tan))
    } else if n == 3 && bytes[j] == 101 && bytes[j + 1] == 120 && bytes[j + 2] == 112 {
        Some(TokenKind::Name(Func::Exp))
    } else if n == 3 && bytes[j] == 108 && bytes[j + 1] == 111 && bytes[j + 2] == 103 {
        Some(TokenKind::Name(Func::Log))
    } else if n == 4 && bytes[j] == 115 && bytes[j + 1] == 113 && bytes[j + 2] == 114 && bytes[j
        + 3] == 116 {
        Some(TokenKind::Name(Func::Sqrt))
    } else if n == 4 && bytes[j] == 115 && bytes[j + 1] == 105 && bytes[j + 2] == 110 && bytes[j
        + 3] == 104 {
        Some(TokenKind::Name(Func::Sinh))
    } else if n == 4 && bytes[j] == 99 && bytes[j + 1] == 111 && bytes[j + 2] == 115 && bytes[j + 3]
        == 104 {
        Some(TokenKind::Name(Func::Cosh))
    } else if n == 4 && bytes[j] == 116 && bytes[j + 1] == 97 && bytes[j + 2] == 110 && bytes[j + 3]
        == 104 {
        Some(TokenKind::Name(Func::Tanh))
    } else if n == 4 && bytes[j] == 97 && bytes[j + 1] == 115 && bytes[j + 2] == 105 && bytes[j + 3]
        == 110 {
        Some(TokenKind::Name(Func::Asin))
    } else if n == 4 && bytes[j] == 97 && bytes[j + 1] == 99 && bytes[j + 2] == 111 && bytes[j + 3]
        == 115 {
        Some(TokenKind::Name(Func::Acos))
    } else if n == 4 && bytes[j] == 97 && bytes[j + 1] == 116 && bytes[j + 2] == 97 && bytes[j + 3]
        == 110 {
        Some(TokenKind::Name(Func::Atan))
    } else if n == 3 && bytes[j] == 97 && bytes[j + 1] == 98 && bytes[j + 2] == 115 {
        Some(TokenKind::Name(Func::Abs))
    } else if n == 4 && bytes[j] == 99 && bytes[j + 1] == 111 && bytes[j + 2] == 110 && bytes[j + 3]
        == 106 {
        Some(TokenKind::Name(Func::Conj))
    } else {
        None
    }
}

/// Scan the number token starting at the digit `bytes[j]`.
fn scan_number(bytes: &[u8], j: usize) -> (r: (Token, usize))
    requires
        j < bytes@.len(),
        is_digit(bytes@[j as int]),
    ensures
        r.0 == spec_number_token(bytes@, j as int).0,
        r.1 as int == spec_number_token(bytes@, j as int).1,
        j < r.1 <= bytes@.len(),
        tok_num_wf(r.0),
{
    let n = bytes.len();
    let mut k = j + 1;
    let mut acc: u64 = (bytes[j] - 48) as u64;
    let mut over: bool = false;
    proof {
        assert(spec_digits_val(bytes@, j as int, j as int) == 0);
        assert(spec_digits_val(bytes@, j as int, j + 1) == (bytes@[j as int] - 48) as int);
    }
    while k < n && digit_at(bytes, k)
        invariant
            j < k <= n,
            n == bytes@.len(),
            spec_end_digits(bytes@, j as int + 1) == spec_end_digits(bytes@, k as int),
            over ==> spec_digits_val(bytes@, j as int, k as int) > 100_000_000,
            !over ==> acc as int == spec_digits_val(bytes@, j as int, k as int) && acc
                <= 100_000_000,
        decreases n - k,
    {
        let d = (bytes[k] - 48) as u64;
        proof {
            assert(spec_digits_val(bytes@, j as int, k + 1) == spec_digits_val(
                bytes@,
                j as int,
                k as int,
            ) * 10 + (bytes@[k as int] - 48));
            if over {
                assert(spec_digits_val(bytes@, j as int, k as int) * 10 + (bytes@[k as int] - 48)
                    > 100_000_000) by (nonlinear_arith)
                    requires
                        spec_digits_val(bytes@, j as int, k as int) > 100_000_000,
                        0 <= bytes@[k as int] - 48,
                ;
            }
        }
        if !over {
            if acc > 10_000_000 || (acc == 10_000_000 && d > 0) {
                over = true;
            } else {
                acc = acc * 10 + d;
            }
        }
        k = k + 1;
    }
    let int_end = k;
    let has_frac = int_end < n && bytes[int_end] == 46 && int_end + 1 < n && digit_at(
        bytes,
        int_end + 1,
    );
    let mut facc: u64 = 0;
    let mut end = int_end;
    if has_frac {
        let fk = scan_digits(bytes, int_end + 1);
        proof {
            lemma_end_digits_range(bytes@, int_end + 1);
        }
        let mut t = int_end + 1;
        let mut p: u64 = 1_000_000;
        while t < fk && p > 0
            invariant
                int_end + 1 <= t <= fk,
                fk <= n,
                n == bytes@.len(),
                fk as int == spec_end_digits(bytes@, int_end + 1),
                forall|u: int| int_end + 1 <= u < fk ==> is_digit(#[trigger] bytes@[u]),
                facc + 10 * p <= SCALE,
                facc as int + spec_frac_val(bytes@, t as int, fk as int, p as int)
                    == spec_frac_val(bytes@, int_end + 1, fk as int, 1_000_000),
            decreases fk - t,
        {
            proof {
                assert(is_digit(bytes@[t as int]));
            }
            let d = (bytes[t] - 48) as u64;
            proof {
                assert(0 <= (bytes@[t as int] - 48) * p <= 9 * p) by (nonlinear_arith)
                    requires
                        is_digit(bytes@[t as int]),
                        p >= 0,
                ;
                vstd::arithmetic::div_mod::lemma_fundamental_div_mod(p as int, 10);
                vstd::arithmetic::div_mod::lemma_mod_bound(p as int, 10);
            }
            facc = facc + d * p;
            p = p / 10;
            t = t + 1;
        }
        end = fk;
    }
    let value: i64 = if over {
        proof {
            assert(spec_digits_val(bytes@, j as int, int_end as int) * SCALE > FIX_MAX)
                by (nonlinear_arith)
                requires
                    spec_digits_val(bytes@, j as int, int_end as int) > 100_000_000,
                    SCALE == 10_000_000i64,
                    FIX_MAX == 1_000_000_000_000_000i64,
            ;
        }
        FIX_MAX
    } else {
        let v = acc * (SCALE as u64) + facc;
        proof {
            assert(acc * (SCALE as u64) == acc as int * (SCALE as int) && acc as int * (
            SCALE as int) <= 1_000_000_000_000_000_000) by (nonlinear_arith)
                requires
                    0 <= acc <= 100_000_000,
                    SCALE == 10_000_000i64,
            ;
        }
        if v > FIX_MAX as u64 {
            FIX_MAX
        } else {
            v as i64
        }
    };
    (Token { kind: TokenKind::Number(value), pos: j }, end)
}

/// Scan one token at or after `i`.
fn next_token(bytes: &[u8], i: usize) -> (r: NextTok)
    requires
        i <= bytes@.len(),
    ensures
        r == spec_next_token(bytes@, i as int),
        r matches NextTok::Tok(t, k) ==> i < k <= bytes@.len() && tok_num_wf(t),
{
    let n = bytes.len();
    let mut j = i;
    while j < n && ws_at(bytes, j)
        invariant
            i <= j <= n,
            n == bytes@.len(),
            spec_skip_ws(bytes@, i as int) == spec_skip_ws(bytes@, j as int),
        decreases n - j,
    {
        j = j + 1;
    }
    if j == n {
        return NextTok::End;
    }
    let b = bytes[j];
    if b == 43 {
        NextTok::Tok(Token { kind: TokenKind::Plus, pos: j }, j + 1)
    } else if b == 45 {
        NextTok::Tok(Token { kind: TokenKind::Minus, pos: j }, j + 1)
    } else if b == 42 {
        NextTok::Tok(Token { kind: TokenKind::Star, pos: j }, j + 1)
    } else if b == 47 {
        NextTok::Tok(Token { kind: TokenKind::Slash, pos: j }, j + 1)
    } else if b == 94 {
        NextTok::Tok(Token { kind: TokenKind::Caret, pos: j }, j + 1)
    } else if b == 40 {
        NextTok::Tok(Token { kind: TokenKind::LParen, pos: j }, j + 1)
    } else if b == 41 {
        NextTok::Tok(Token { kind: TokenKind::RParen, pos: j }, j + 1)
    } else if 48 <= b && b <= 57 {
        let tk = scan_number(bytes, j);
        NextTok::Tok(tk.0, tk.1)
    } else if 97 <= b && b <= 122 {
        let mut k = j + 1;
        while k < n && 97 <= bytes[k] && bytes[k] <= 122
            invariant
                j + 1 <= k <= n,
                n == bytes@.len(),
                spec_end_alpha(bytes@, j as int + 1) == spec_end_alpha(bytes@, k as int),
            decreases n - k,
        {
            k = k + 1;
        }
        match match_word(bytes, j, k) {
            Some(kind) => NextTok::Tok(Token { kind, pos: j }, k),
            None => NextTok::Fail(ParseError { pos: j, kind: ParseErrorKind::UnknownToken }),
        }
    } else {
        NextTok::Fail(ParseError { pos: j, kind: ParseErrorKind::UnknownToken })
    }
}

/// Tokenize the whole input.
fn tokenize(bytes: &[u8]) -> (r: Result<Vec<Token>, ParseError>)
    ensures
        r matches Ok(toks) ==> spec_tokenize(bytes@, 0) == Ok::<Seq<Token>, ParseError>(toks@)
            && forall|ti: int| 0 <= ti < toks@.len() ==> tok_num_wf(#[trigger] toks@[ti]),
        r matches Err(e) ==> spec_tokenize(bytes@, 0) == Err::<Seq<Token>, ParseError>(e),
{
    let n = bytes.len();
    let mut acc: Vec<Token> = Vec::new();
    let mut pos: usize = 0;
    loop
        invariant
            0 <= pos <= n,
            n == bytes@.len(),
            forall|ti: int| 0 <= ti < acc@.len() ==> tok_num_wf(#[trigger] acc@[ti]),
            spec_tokenize(bytes@, pos as int) matches Ok(rest) ==> spec_tokenize(bytes@, 0)
                == Ok::<Seq<Token>, ParseError>(acc@ + rest),
            spec_tokenize(bytes@, pos as int) matches Err(e) ==> spec_tokenize(bytes@, 0)
                == Err::<Seq<Token>, ParseError>(e),
        decreases n - pos,
    {
        match next_token(bytes, pos) {
            NextTok::End => {
                proof {
                    assert(acc@ + Seq::<Token>::empty() =~= acc@);
                }
                return Ok(acc);
            },
            NextTok::Fail(e) => {
                return Err(e);
            },
            NextTok::Tok(t, k) => {
                proof {
                    match spec_tokenize(bytes@, k as int) {
                        Ok(rest) => {
                            assert(acc@ + (seq![t] + rest) =~= acc@.push(t) + rest);
                        },
                        Err(_) => {},
                    }
                }
                acc.push(t);
                pos = k;
            },
        }
    }
}

/// A parse error used on paths the executable parser can never take (they
/// would need a scanner that stands still or runs past the input).
pub open spec fn stuck_error(end_pos: usize) -> ParseError {
    ParseError { pos: end_pos, kind: ParseErrorKind::UnexpectedEnd }
}

/// A primary: a number, `z`, a minus bound to a number literal, a registry
/// function applied to a parenthesised expression, a parenthesised
/// expression, or `-` before a factor.
pub open spec fn spec_parse_primary(t: Seq<Token>, i: int, end_pos: usize) -> Result<
    (Expr, int),
    ParseError,
>
    decreases t.len() - i, 0int,
    when 0 <= i <= t.len()
{
    if i >= t.len() {
        Err(ParseError { pos: end_pos, kind: ParseErrorKind::UnexpectedEnd })
    } else {
        match t[i].kind {
            TokenKind::Number(v) => Ok((Expr::Number(v), i + 1)),
            TokenKind::Variable => Ok((Expr::Variable, i + 1)),
            TokenKind::Minus => {
                if i + 1 < t.len() && (t[i + 1].kind matches TokenKind::Number(_)) {
                    match t[i + 1].kind {
                        TokenKind::Number(v) => Ok((Expr::Number(sat(-v)), i + 2)),
                        _ => Err(stuck_error(end_pos)),
                    }
                } else {
                    match spec_parse_factor(t, i + 1, end_pos) {
                        Ok((e, j)) => Ok(
                            (Expr::UnaryOp { op: UnOp::Neg, expr: Box::new(e) }, j),
                        ),
                        Err(pe) => Err(pe),
                    }
                }
            },
            TokenKind::Name(f) => {
                if i + 1 >= t.len() {
                    Err(ParseError { pos: end_pos, kind: ParseErrorKind::UnexpectedEnd })
                } else if !(t[i + 1].kind matches TokenKind::LParen) {
                    Err(ParseError { pos: t[i + 1].pos, kind: ParseErrorKind::UnexpectedToken })
                } else {
                    match spec_parse_expr(t, i + 2, end_pos) {
                        Ok((e, j)) => {
                            if !(i + 2 < j <= t.len()) {
                                Err(stuck_error(end_pos))
                            } else if j >= t.len() {
                                Err(
                                    ParseError {
                                        pos: end_pos,
                                        kind: ParseErrorKind::UnexpectedEnd,
                                    },
                                )
                            } else if (t[j].kind matches TokenKind::RParen) {
                                Ok((Expr::Function { func: f, expr: Box::new(e) }, j + 1))
                            } else {
                                Err(
                                    ParseError {
                                        pos: t[j].pos,
                                        kind: ParseErrorKind::UnexpectedToken,
                                    },
                                )
                            }
                        },
                        Err(pe) => Err(pe),
                    }
                }
            },
            TokenKind::LParen => {
                match spec_parse_expr(t, i + 1, end_pos) {
                    Ok((e, j)) => {
                        if !(i + 1 < j <= t.len()) {
                            Err(stuck_error(end_pos))
                        } else if j >= t.len() {
                            Err(ParseError { pos: end_pos, kind: ParseErrorKind::UnexpectedEnd })
                        } else if (t[j].kind matches TokenKind::RParen) {
                            Ok((e, j + 1))
                        } else {
                            Err(ParseError { pos: t[j].pos, kind: ParseErrorKind::UnexpectedToken })
                        }
                    },
                    Err(pe) => Err(pe),
                }
            },
            _ => Err(ParseError { pos: t[i].pos, kind: ParseErrorKind::UnexpectedToken }),
        }
    }
}

/// The `^` chain continuing a factor, folded left.
pub open spec fn spec_parse_factor_rest(t: Seq<Token>, i: int, acc: Expr, end_pos: usize) -> Result<
    (Expr, int),
    ParseError,
>
    decreases t.len() - i, 1int,
    when 0 <= i <= t.len()
{
    if i < t.len() && (t[i].kind matches TokenKind::Caret) {
        match spec_parse_primary(t, i + 1, end_pos) {
            Ok((e, j)) => {
                if i + 1 < j <= t.len() {
                    spec_parse_factor_rest(
                        t,
                        j,
                        Expr::BinaryOp {
                            left: Box::new(acc),
                            op: BinOp::Pow,
                            right: Box::new(e),
                        },
                        end_pos,
                    )
                } else {
                    Err(stuck_error(end_pos))
                }
            },
            Err(pe) => Err(pe),
        }
    } else {
        Ok((acc, i))
    }
}

/// A factor: a chain of primaries under `^`.
pub open spec fn spec_parse_factor(t: Seq<Token>, i: int, end_pos: usize) -> Result<
    (Expr, int),
    ParseError,
>
    decreases t.len() - i, 2int,
    when 0 <= i <= t.len()
{
    match spec_parse_primary(t, i, end_pos) {
        Ok((e, j)) => {
            if i < j <= t.len() {
                spec_parse_factor_rest(t, j, e, end_pos)
            } else {
                Err(stuck_error(end_pos))
            }
        },
        Err(pe) => Err(pe),
    }
}

/// The `*` and `/` chain continuing a term, folded left.
pub open spec fn spec_parse_term_rest(t: Seq<Token>, i: int, acc: Expr, end_pos: usize) -> Result<
    (Expr, int),
    ParseError,
>
    decreases t.len() - i, 3int,
    when 0 <= i <= t.len()
{
    if i < t.len() && ((t[i].kind matches TokenKind::Star) || (
    t[i].kind matches TokenKind::Slash)) {
        let op = if (t[i].kind matches TokenKind::Star) {
            BinOp::Mul
        } else {
            BinOp::Div
        };
        match spec_parse_factor(t, i + 1, end_pos) {
            Ok((e, j)) => {
                if i + 1 < j <= t.len() {
                    spec_parse_term_rest(
                        t,
                        j,
                        Expr::BinaryOp { left: Box::new(acc), op, right: Box::new(e) },
                        end_pos,
                    )
                } else {
                    Err(stuck_error(end_pos))
                }
            },
            Err(pe) => Err(pe),
        }
    } else {
        Ok((acc, i))
    }
}

/// A term: a chain of factors under `*` and `/`.
pub open spec fn spec_parse_term(t: Seq<Token>, i: int, end_pos: usize) -> Result<
    (Expr, int),
    ParseError,
>
    decreases t.len() - i, 4int,
    when 0 <= i <= t.len()
{
    match spec_parse_factor(t, i, end_pos) {
        Ok((e, j)) => {
            if i < j <= t.len() {
                spec_parse_term_rest(t, j, e, end_pos)
            } else {
                Err(stuck_error(end_pos))
            }
        },
        Err(pe) => Err(pe),
    }
}

/// The `+` and `-` chain continuing an expression, folded left.
pub open spec fn spec_parse_expr_rest(t: Seq<Token>, i: int, acc: Expr, end_pos: usize) -> Result<
    (Expr, int),
    ParseError,
>
    decreases t.len() - i, 5int,
    when 0 <= i <= t.len()
{
    if i < t.len() && ((t[i].kind matches TokenKind::Plus) || (
    t[i].kind matches TokenKind::Minus)) {
        let op = if (t[i].kind matches TokenKind::Plus) {
            BinOp::Add
        } else {
            BinOp::Sub
        };
        match spec_parse_term(t, i + 1, end_pos) {
            Ok((e, j)) => {
                if i + 1 < j <= t.len() {
                    spec_parse_expr_rest(
                        t,
                        j,
                        Expr::BinaryOp { left: Box::new(acc), op, right: Box::new(e) },
                        end_pos,
                    )
                } else {
                    Err(stuck_error(end_pos))
                }
            },
            Err(pe) => Err(pe),
        }
    } else {
        Ok((acc, i))
    }
}

/// A full expression: a chain of terms under `+` and `-`.
pub open spec fn spec_parse_expr(t: Seq<Token>, i: int, end_pos: usize) -> Result<
    (Expr, int),
    ParseError,
>
    decreases t.len() - i, 6int,
    when 0 <= i <= t.len()
{
    match spec_parse_term(t, i, end_pos) {
        Ok((e, j)) => {
            if i < j <= t.len() {
                spec_parse_expr_rest(t, j, e, end_pos)
            } else {
                Err(stuck_error(end_pos))
            }
        },
        Err(pe) => Err(pe),
    }
}

/// What parsing the whole input must yield: the tokens parsed as one
/// expression with nothing left over, or the first error.
pub open spec fn spec_parse(s: Seq<u8>) -> Result<Expr, ParseError> {
    match spec_tokenize(s, 0) {
        Err(e) => Err(e),
        Ok(toks) => match spec_parse_expr(toks, 0, s.len() as usize) {
            Err(e) => Err(e),
            Ok((e, j)) => {
                if j == toks.len() {
                    Ok(e)
                } else {
                    Err(ParseError { pos: toks[j].pos, kind: ParseErrorKind::TrailingInput })
                }
            },
        },
    }
}

/// All number tokens of `toks` carry evaluator-ready values.
pub open spec fn toks_wf(toks: Seq<Token>) -> bool {
    forall|ti: int| 0 <= ti < toks.len() ==> tok_num_wf(#[trigger] toks[ti])
}

/// Exec mirror of [`spec_parse_primary`].
fn parse_primary(toks: &Vec<Token>, i: usize, end_pos: usize) -> (r: Result<
    (Expr, usize),
    ParseError,
>)
    requires
        i <= toks@.len(),
        toks_wf(toks@),
    ensures
        r matches Ok(v) ==> i < v.1 <= toks@.len() && spec_parse_primary(toks@, i as int, end_pos)
            == Ok::<(Expr, int), ParseError>((v.0, v.1 as int)),
        r matches Err(pe) ==> spec_parse_primary(toks@, i as int, end_pos) == Err::<
            (Expr, int),
            ParseError,
        >(pe),
    decreases toks@.len() - i, 0int,
{
    if i >= toks.len() {
        return Err(ParseError { pos: end_pos, kind: ParseErrorKind::UnexpectedEnd });
    }
    let t = toks[i];
    match t.kind {
        TokenKind::Number(v) => Ok((Expr::Number(v), i + 1)),
        TokenKind::Variable => Ok((Expr::Variable, i + 1)),
        TokenKind::Minus => {
            if i + 1 < toks.len() {
                let t2 = toks[i + 1];
                if let TokenKind::Number(v) = t2.kind {
                    proof {
                        assert(tok_num_wf(toks@[i + 1]));
                    }
                    return Ok((Expr::Number(-v), i + 2));
                }
            }
            match parse_factor(toks, i + 1, end_pos) {
                Ok((e, j)) => Ok((Expr::UnaryOp { op: UnOp::Neg, expr: Box::new(e) }, j)),
                Err(pe) => Err(pe),
            }
        },
        TokenKind::Name(f) => {
            if i + 1 >= toks.len() {
                return Err(ParseError { pos: end_pos, kind: ParseErrorKind::UnexpectedEnd });
            }
            let t2 = toks[i + 1];
            if !(matches!(t2.kind, TokenKind::LParen)) {
                return Err(ParseError { pos: t2.pos, kind: ParseErrorKind::UnexpectedToken });
            }
            match parse_expr(toks, i + 2, end_pos) {
                Ok((e, j)) => {
                    if j >= toks.len() {
                        Err(ParseError { pos: end_pos, kind: ParseErrorKind::UnexpectedEnd })
                    } else {
                        let tc = toks[j];
                        if matches!(tc.kind, TokenKind::RParen) {
                            Ok((Expr::Function { func: f, expr: Box::new(e) }, j + 1))
                        } else {
                            Err(ParseError { pos: tc.pos, kind: ParseErrorKind::UnexpectedToken })
                        }
                    }
                },
                Err(pe) => Err(pe),
            }
        },
        TokenKind::LParen => {
            match parse_expr(toks, i + 1, end_pos) {
                Ok((e, j)) => {
                    if j >= toks.len() {
                        Err(ParseError { pos: end_pos, kind: ParseErrorKind::UnexpectedEnd })
                    } else {
                        let tc = toks[j];
                        if matches!(tc.kind, TokenKind::RParen) {
                            Ok((e, j + 1))
                        } else {
                            Err(ParseError { pos: tc.pos, kind: ParseErrorKind::UnexpectedToken })
                        }
                    }
                },
                Err(pe) => Err(pe),
            }
        },
        _ => Err(ParseError { pos: t.pos, kind: ParseErrorKind::UnexpectedToken }),
    }
}

/// Exec mirror of [`spec_parse_factor_rest`].
fn parse_factor_rest(toks: &Vec<Token>, i: usize, acc: Expr, end_pos: usize) -> (r: Result<
    (Expr, usize),
    ParseError,
>)
    requires
        i <= toks@.len(),
        toks_wf(toks@),
    ensures
        r matches Ok(v) ==> i <= v.1 <= toks@.len() && spec_parse_factor_rest(
            toks@,
            i as int,
            acc,
            end_pos,
        ) == Ok::<(Expr, int), ParseError>((v.0, v.1 as int)),
        r matches Err(pe) ==> spec_parse_factor_rest(toks@, i as int, acc, end_pos) == Err::<
            (Expr, int),
            ParseError,
        >(pe),
    decreases toks@.len() - i, 1int,
{
    if i < toks.len() && matches!(toks[i].kind, TokenKind::Caret) {
        match parse_primary(toks, i + 1, end_pos) {
            Ok((e, j)) => parse_factor_rest(
                toks,
                j,
                Expr::BinaryOp { left: Box::new(acc), op: BinOp::Pow, right: Box::new(e) },
                end_pos,
            ),
            Err(pe) => Err(pe),
        }
    } else {
        Ok((acc, i))
    }
}

/// Exec mirror of [`spec_parse_factor`].
fn parse_factor(toks: &Vec<Token>, i: usize, end_pos: usize) -> (r: Result<
    (Expr, usize),
    ParseError,
>)
    requires
        i <= toks@.len(),
        toks_wf(toks@),
    ensures
        r matches Ok(v) ==> i < v.1 <= toks@.len() && spec_parse_factor(toks@, i as int, end_pos)
            == Ok::<(Expr, int), ParseError>((v.0, v.1 as int)),
        r matches Err(pe) ==> spec_parse_factor(toks@, i as int, end_pos) == Err::<
            (Expr, int),
            ParseError,
        >(pe),
    decreases toks@.len() - i, 2int,
{
    match parse_primary(toks, i, end_pos) {
        Ok((e, j)) => parse_factor_rest(toks, j, e, end_pos),
        Err(pe) => Err(pe),
    }
}

/// Exec mirror of [`spec_parse_term_rest`].
fn parse_term_rest(toks: &Vec<Token>, i: usize, acc: Expr, end_pos: usize) -> (r: Result<
    (Expr, usize),
    ParseError,
>)
    requires
        i <= toks@.len(),
        toks_wf(toks@),
    ensures
        r matches Ok(v) ==> i <= v.1 <= toks@.len() && spec_parse_term_rest(
            toks@,
            i as int,
            acc,
            end_pos,
        ) == Ok::<(Expr, int), ParseError>((v.0, v.1 as int)),
        r matches Err(pe) ==> spec_parse_term_rest(toks@, i as int, acc, end_pos) == Err::<
            (Expr, int),
            ParseError,
        >(pe),
    decreases toks@.len() - i, 3int,
{
    if i < toks.len() && (matches!(toks[i].kind, TokenKind::Star) || matches!(
        toks[i].kind,
        TokenKind::Slash,
    )) {
        let op = if matches!(toks[i].kind, TokenKind::Star) {
            BinOp::Mul
        } else {
            BinOp::Div
        };
        match parse_factor(toks, i + 1, end_pos) {
            Ok((e, j)) => parse_term_rest(
                toks,
                j,
                Expr::BinaryOp { left: Box::new(acc), op, right: Box::new(e) },
                end_pos,
            ),
            Err(pe) => Err(pe),
        }
    } else {
        Ok((acc, i))
    }
}

/// Exec mirror of [`spec_parse_term`].
fn parse_term(toks: &Vec<Token>, i: usize, end_pos: usize) -> (r: Result<
    (Expr, usize),
    ParseError,
>)
    requires
        i <= toks@.len(),
        toks_wf(toks@),
    ensures
        r matches Ok(v) ==> i < v.1 <= toks@.len() && spec_parse_term(toks@, i as int, end_pos)
            == Ok::<(Expr, int), ParseError>((v.0, v.1 as int)),
        r matches Err(pe) ==> spec_parse_term(toks@, i as int, end_pos) == Err::<
            (Expr, int),
            ParseError,
        >(pe),
    decreases toks@.len() - i, 4int,
{
    match parse_factor(toks, i, end_pos) {
        Ok((e, j)) => parse_term_rest(toks, j, e, end_pos),
        Err(pe) => Err(pe),
    }
}

/// Exec mirror of [`spec_parse_expr_rest`].
fn parse_expr_rest(toks: &Vec<Token>, i: usize, acc: Expr, end_pos: usize) -> (r: Result<
    (Expr, usize),
    ParseError,
>)
    requires
        i <= toks@.len(),
        toks_wf(toks@),
    ensures
        r matches Ok(v) ==> i <= v.1 <= toks@.len() && spec_parse_expr_rest(
            toks@,
            i as int,
            acc,
            end_pos,
        ) == Ok::<(Expr, int), ParseError>((v.0, v.1 as int)),
        r matches Err(pe) ==> spec_parse_expr_rest(toks@, i as int, acc, end_pos) == Err::<
            (Expr, int),
            ParseError,
        >(pe),
    decreases toks@.len() - i, 5int,
{
    if i < toks.len() && (matches!(toks[i].kind, TokenKind::Plus) || matches!(
        toks[i].kind,
        TokenKind::Minus,
    )) {
        let op = if matches!(toks[i].kind, TokenKind::Plus) {
            BinOp::Add
        } else {
            BinOp::Sub
        };
        match parse_term(toks, i + 1, end_pos) {
            Ok((e, j)) => parse_expr_rest(
                toks,
                j,
                Expr::BinaryOp { left: Box::new(acc), op, right: Box::new(e) },
                end_pos,
            ),
            Err(pe) => Err(pe),
        }
    } else {
        Ok((acc, i))
    }
}

/// Exec mirror of [`spec_parse_expr`].
fn parse_expr(toks: &Vec<Token>, i: usize, end_pos: usize) -> (r: Result<
    (Expr, usize),
    ParseError,
>)
    requires
        i <= toks@.len(),
        toks_wf(toks@),
    ensures
        r matches Ok(v) ==> i < v.1 <= toks@.len() && spec_parse_expr(toks@, i as int, end_pos)
            == Ok::<(Expr, int), ParseError>((v.0, v.1 as int)),
        r matches Err(pe) ==> spec_parse_expr(toks@, i as int, end_pos) == Err::<
            (Expr, int),
            ParseError,
        >(pe),
    decreases toks@.len() - i, 6int,
{
    match parse_term(toks, i, end_pos) {
        Ok((e, j)) => parse_expr_rest(toks, j, e, end_pos),
        Err(pe) => Err(pe),
    }
}

/// Parse one expression from the start of the input. On success the returned
/// position is the byte where the unconsumed input begins (the input's length
/// when all of it was consumed).
pub fn parse_expression(input: &str) -> (r: Result<(Expr, usize), ParseError>)
    ensures
        r matches Ok(v) ==> (match spec_tokenize(input.spec_bytes(), 0) {
            Ok(toks) => spec_parse_expr(toks, 0, input.spec_bytes().len() as usize) matches Ok(w)
                && w.0 == v.0 && v.1 as int == (if w.1 < toks.len() {
                toks[w.1].pos as int
            } else {
                input.spec_bytes().len() as int
            }),
            Err(_) => false,
        }),
        r matches Err(pe) ==> spec_parse(input.spec_bytes()) == Err::<Expr, ParseError>(pe),
{
    let bytes = input.as_bytes();
    let end_pos = bytes.len();
    match tokenize(bytes) {
        Err(e) => Err(e),
        Ok(toks) => match parse_expr(&toks, 0, end_pos) {
            Err(e) => Err(e),
            Ok((e, j)) => {
                if j < toks.len() {
                    let pos = toks[j].pos;
                    Ok((e, pos))
                } else {
                    Ok((e, end_pos))
                }
            },
        },
    }
}

impl Expr {
    /// Parse the whole input as one expression: exactly [`spec_parse`], with
    /// trailing input rejected.
    pub fn parse(input: &str) -> (r: Result<Expr, ParseError>)
        ensures
            r matches Ok(e) ==> spec_parse(input.spec_bytes()) == Ok::<Expr, ParseError>(e),
            r matches Err(pe) ==> spec_parse(input.spec_bytes()) == Err::<Expr, ParseError>(pe),
    {
        let bytes = input.as_bytes();
        let end_pos = bytes.len();
        match tokenize(bytes) {
            Err(e) => Err(e),
            Ok(toks) => match parse_expr(&toks, 0, end_pos) {
                Err(e) => Err(e),
                Ok((e, j)) => {
                    if j == toks.len() {
                        Ok(e)
                    } else {
                        let pos = toks[j].pos;
                        Err(ParseError { pos, kind: ParseErrorKind::TrailingInput })
                    }
                },
            },
        }
    }
}

} // verus!

