use steward::calc::{parse_expression, tidy_decimal, BinOp, Expr};

fn value(e: &Expr) -> f64 {
    match e {
        Expr::Num(text) => text.parse().unwrap(),
        Expr::Group(a) => value(a),
        Expr::Sign(minus, a) => {
            if *minus {
                -value(a)
            } else {
                value(a)
            }
        }
        Expr::Binary(op, a, b) => {
            let (a, b) = (value(a), value(b));
            match op {
                BinOp::Add => a + b,
                BinOp::Sub => a - b,
                BinOp::Mul => a * b,
                BinOp::Div => a / b,
                BinOp::Rem => a % b,
                BinOp::Pow => a.powf(b),
            }
        }
    }
}

fn try_evaluate(input: &str) -> Option<f64> {
    let value = value(&parse_expression(input)?);
    value.is_finite().then_some(value)
}

fn format_value(value: f64) -> String {
    if value.fract() == 0.0 && value.abs() < 1e15 {
        return format!("{}", value as i64);
    }
    tidy_decimal(&format!("{value:.10}"))
}

fn eval(input: &str) -> Option<f64> {
    try_evaluate(input)
}

fn assert_close(input: &str, expected: f64) {
    let got = eval(input).unwrap_or_else(|| panic!("`{input}` did not evaluate"));
    assert!(
        (got - expected).abs() < 1e-9,
        "`{input}` = {got}, expected {expected}"
    );
}

#[test]
fn basic_arithmetic() {
    assert_close("1+2", 3.0);
    assert_close("10-4", 6.0);
    assert_close("3*4", 12.0);
    assert_close("10/4", 2.5);
}

#[test]
fn precedence_and_parens() {
    assert_close("2+3*4", 14.0);
    assert_close("(2+3)*4", 20.0);
    assert_close("2*3+4*5", 26.0);
    assert_close("10-2-3", 5.0); // left-associative
    assert_close("8/2*2", 8.0); // left-associative
}

#[test]
fn unary_minus() {
    assert_close("-5+3", -2.0);
    assert_close("5--3", 8.0);
    assert_close("5 - -3", 8.0);
    assert_close("2*-3", -6.0);
    assert_close("(-2)^2", 4.0);
    assert_close("-2^2", -4.0); // power binds tighter than unary minus
}

#[test]
fn power_is_right_associative() {
    assert_close("2^3", 8.0);
    assert_close("2^3^2", 512.0); // 2^(3^2), not (2^3)^2
    assert_close("2^0.5", std::f64::consts::SQRT_2);
    assert_close("2^-1", 0.5);
}

#[test]
fn modulo_and_decimals() {
    assert_close("10%3", 1.0);
    assert_close("5.5+4.5", 10.0);
    assert_close(".5*4", 2.0);
    assert_close("1e3+1", 1001.0);
    assert_close("1.5e-2*100", 1.5);
}

#[test]
fn whitespace_is_ignored() {
    assert_close(" 2 +  2 ", 4.0);
    assert_close("2\t+\t2", 4.0);
}

#[test]
fn unicode_symbols_are_normalized() {
    assert_close("2×3", 6.0);
    assert_close("10÷2", 5.0);
    assert_close("5−2", 3.0);
    assert_close("（1+2）×2", 6.0);
}

#[test]
fn non_expressions_return_none() {
    assert_eq!(eval(""), None);
    assert_eq!(eval("   "), None);
    assert_eq!(eval("calc"), None);
    assert_eq!(eval("firefox"), None);
    assert_eq!(eval("42"), None); // bare number: keep ordinary search
    assert_eq!(eval("-5"), None); // lone sign: not a binary expression
    assert_eq!(eval("--5"), None);
    assert_eq!(eval("2+"), None); // dangling operator
    assert_eq!(eval("(2+3"), None); // unclosed paren
    assert_eq!(eval("2+3)"), None); // stray paren
    assert_eq!(eval("2+abc"), None);
    assert_eq!(eval("1/0"), None); // division by zero
    assert_eq!(eval("0/0"), None);
    assert_eq!(eval("5%0"), None);
    assert_eq!(eval("2 2"), None); // implicit multiplication not supported
}

#[test]
fn format_integer_results_without_fraction() {
    assert_eq!(format_value(4.0), "4");
    assert_eq!(format_value(-0.0), "0");
    assert_eq!(format_value(1e15), "1000000000000000");
}

#[test]
fn format_floats_trim_trailing_zeros() {
    assert_eq!(format_value(0.1 + 0.2), "0.3");
    assert_eq!(format_value(10.0 / 3.0), "3.3333333333");
    assert_eq!(format_value(2.5), "2.5");
    assert_eq!(format_value(1.5e-2), "0.015");
}

#[test]
fn numbers_by_themselves_are_no_expressions() {
    assert_eq!(eval("1e-5"), None);
    assert_eq!(eval("1e+5"), None);
    assert_eq!(eval("-1.5e-2"), None);
    assert_eq!(eval("(-5)"), None);
    assert_eq!(eval("-(5)"), None);
    assert_close("1e-5*2", 0.00002);
    assert_close("(2+3)", 5.0);
    assert_close("-(2^2)", -4.0);
}
