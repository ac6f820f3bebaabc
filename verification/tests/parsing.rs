use holomorphic::fixed::SCALE;
use holomorphic::parsing::{BinOp, Expr, Func, ParseErrorKind, UnOp};

fn num(v: i64) -> Box<Expr> {
    Box::new(Expr::Number(v * SCALE))
}

fn bin(left: Box<Expr>, op: BinOp, right: Box<Expr>) -> Box<Expr> {
    Box::new(Expr::BinaryOp { left, op, right })
}

#[test]
fn test_simple_number_expressions() {
    assert_eq!(Expr::parse("5").unwrap(), Expr::Number(5 * SCALE));
    assert_eq!(Expr::parse("-3").unwrap(), Expr::Number(-3 * SCALE));
    assert_eq!(Expr::parse("z").unwrap(), Expr::Variable);
}

#[test]
fn test_simple_arithmetic_expressions() {
    assert_eq!(Expr::parse("5 + 3").unwrap(), *bin(num(5), BinOp::Add, num(3)));
    assert_eq!(Expr::parse("5 - 3").unwrap(), *bin(num(5), BinOp::Sub, num(3)));
    assert_eq!(Expr::parse("4 * 2").unwrap(), *bin(num(4), BinOp::Mul, num(2)));
    assert_eq!(Expr::parse("8 / 4").unwrap(), *bin(num(8), BinOp::Div, num(4)));
    assert_eq!(Expr::parse("2 ^ 3").unwrap(), *bin(num(2), BinOp::Pow, num(3)));
}

#[test]
fn test_nested_expressions_without_functions() {
    assert_eq!(
        Expr::parse("5 + 3 * 2").unwrap(),
        *bin(num(5), BinOp::Add, bin(num(3), BinOp::Mul, num(2)))
    );
    assert_eq!(
        Expr::parse("(5 + 3) * 2").unwrap(),
        *bin(bin(num(5), BinOp::Add, num(3)), BinOp::Mul, num(2))
    );
}

#[test]
fn test_nested_expressions_with_functions() {
    assert_eq!(
        Expr::parse("sin(5) + 3").unwrap(),
        *bin(
            Box::new(Expr::Function {
                func: Func::Sin,
                expr: num(5),
            }),
            BinOp::Add,
            num(3)
        )
    );
    assert_eq!(
        Expr::parse("cos(z ^ 2) + 1").unwrap(),
        *bin(
            Box::new(Expr::Function {
                func: Func::Cos,
                expr: bin(Box::new(Expr::Variable), BinOp::Pow, num(2)),
            }),
            BinOp::Add,
            num(1)
        )
    );
}

#[test]
fn malformed_inputs_are_rejected() {
    assert!(Expr::parse("z +").is_err());
    assert!(Expr::parse("((z").is_err());
    assert!(Expr::parse("").is_err());
    assert!(Expr::parse("5 5").is_err());
    assert!(Expr::parse("foo(z)").is_err());
    assert!(Expr::parse("sin z").is_err());
    assert!(Expr::parse("(z))").is_err());
}

#[test]
fn malformed_inputs_report_position_and_kind() {
    let e = Expr::parse("z +").unwrap_err();
    assert_eq!(e.kind, ParseErrorKind::UnexpectedEnd);
    assert_eq!(e.pos, 3);
    let e = Expr::parse("").unwrap_err();
    assert_eq!(e.kind, ParseErrorKind::UnexpectedEnd);
    let e = Expr::parse("z z").unwrap_err();
    assert_eq!(e.kind, ParseErrorKind::TrailingInput);
    assert_eq!(e.pos, 2);
    let e = Expr::parse("q").unwrap_err();
    assert_eq!(e.kind, ParseErrorKind::UnknownToken);
}

#[test]
fn unary_minus_and_literals() {
    // a minus directly before a literal binds to the literal
    assert_eq!(
        Expr::parse("-3 ^ 2").unwrap(),
        *bin(Box::new(Expr::Number(-3 * SCALE)), BinOp::Pow, num(2))
    );
    // before anything else it negates a whole factor
    assert_eq!(
        Expr::parse("-z").unwrap(),
        Expr::UnaryOp {
            op: UnOp::Neg,
            expr: Box::new(Expr::Variable),
        }
    );
}

#[test]
fn numbers_parse_in_fixed_point() {
    assert_eq!(Expr::parse("1.5").unwrap(), Expr::Number(15_000_000));
    assert_eq!(Expr::parse("0.0000001").unwrap(), Expr::Number(1));
    // digits beyond the precision are dropped
    assert_eq!(Expr::parse("0.00000016").unwrap(), Expr::Number(1));
    // whitespace is insignificant anywhere between tokens
    assert_eq!(Expr::parse("  5  ").unwrap(), Expr::Number(5 * SCALE));
}

#[test]
fn sinh_parses_as_its_own_name() {
    assert_eq!(
        Expr::parse("sinh(z)").unwrap(),
        Expr::Function {
            func: Func::Sinh,
            expr: Box::new(Expr::Variable),
        }
    );
}

#[test]
fn parse_expression_reports_consumed_position() {
    let (e, pos) = holomorphic::parsing::parse_expression("5 + 3").unwrap();
    assert_eq!(e, *bin(num(5), BinOp::Add, num(3)));
    assert_eq!(pos, 5);
}

#[test]
fn left_associative_power() {
    // 2 ^ 3 ^ 2 folds left: (2 ^ 3) ^ 2
    assert_eq!(
        Expr::parse("2 ^ 3 ^ 2").unwrap(),
        *bin(bin(num(2), BinOp::Pow, num(3)), BinOp::Pow, num(2))
    );
}
