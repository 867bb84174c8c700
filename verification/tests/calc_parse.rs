use woven_shell::calc::{parse_calc, BinOp, Expr, Func, Number};

fn num(e: &Expr) -> Option<&str> {
    match e {
        Expr::Num(Number::Digits(s)) => Some(s.as_str()),
        _ => None,
    }
}

#[test]
fn parses_precedence_and_associativity() {
    let e = parse_calc("1 + 2 * 3").unwrap();
    match e {
        Expr::Bin(BinOp::Add, a, b) => {
            assert_eq!(num(&a), Some("1"));
            match *b {
                Expr::Bin(BinOp::Mul, x, y) => {
                    assert_eq!(num(&x), Some("2"));
                    assert_eq!(num(&y), Some("3"));
                }
                _ => panic!("expected product"),
            }
        }
        _ => panic!("expected sum"),
    }
}

#[test]
fn power_is_right_associative() {
    match parse_calc("2^3^2").unwrap() {
        Expr::Bin(BinOp::Pow, a, b) => {
            assert_eq!(num(&a), Some("2"));
            assert!(matches!(*b, Expr::Bin(BinOp::Pow, _, _)));
        }
        _ => panic!("expected power"),
    }
}

fn value(e: &Expr) -> f64 {
    match e {
        Expr::Num(Number::Digits(s)) => s.parse().unwrap(),
        Expr::Num(Number::Pi) => std::f64::consts::PI,
        Expr::Num(Number::E) => std::f64::consts::E,
        Expr::Neg(a) => -value(a),
        Expr::Bin(op, a, b) => {
            let (x, y) = (value(a), value(b));
            match op {
                BinOp::Add => x + y,
                BinOp::Sub => x - y,
                BinOp::Mul => x * y,
                BinOp::Div => x / y,
                BinOp::Pow => x.powf(y),
            }
        }
        Expr::Call(_, _) => panic!("no calls here"),
    }
}

#[test]
fn unary_minus_negates_the_operand() {
    match parse_calc("-5").unwrap() {
        Expr::Neg(a) => assert_eq!(num(&a), Some("5")),
        _ => panic!("expected negation"),
    }
}

#[test]
fn unary_minus_binds_tighter_than_binary_operators() {
    assert_eq!(value(&parse_calc("2*-3").unwrap()), -6.0);
    assert_eq!(value(&parse_calc("2^-1").unwrap()), 0.5);
    assert_eq!(value(&parse_calc("2 - -3").unwrap()), 5.0);
    assert_eq!(value(&parse_calc("--4").unwrap()), 4.0);
    assert_eq!(value(&parse_calc("-(1+2)*2").unwrap()), -6.0);
    assert_eq!(value(&parse_calc("+7").unwrap()), 7.0);
    assert_eq!(value(&parse_calc("-2^2").unwrap()), -4.0);
    assert_eq!(value(&parse_calc("(-2)^2").unwrap()), 4.0);
    assert_eq!(value(&parse_calc("2^-1^2").unwrap()), 0.5);
    assert_eq!(value(&parse_calc("3 - -2^2").unwrap()), 7.0);
    assert!(parse_calc("2*-").is_none());
}

#[test]
fn functions_and_constants() {
    match parse_calc("SQRT(pi)").unwrap() {
        Expr::Call(Func::Sqrt, a) => assert!(matches!(*a, Expr::Num(Number::Pi))),
        _ => panic!("expected call"),
    }
    assert!(matches!(parse_calc("e").unwrap(), Expr::Num(Number::E)));
}

#[test]
fn rejects_bad_input() {
    assert!(parse_calc("").is_none());
    assert!(parse_calc("   ").is_none());
    assert!(parse_calc("1 +").is_none());
    assert!(parse_calc("1.2.3").is_none());
    assert!(parse_calc("foo(2)").is_none());
    assert!(parse_calc("2 $ 3").is_none());
    assert!(parse_calc("(1+2").is_some());
    assert!(parse_calc("1 2").is_none());
}
