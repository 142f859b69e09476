use monke::expr;
use monke::{Expr, Number, Operator};

#[test]
fn lib_parse_expr_with_whitespace() {
    assert_eq!(
        Expr::new("2 * 2"),
        (Expr { lhs: Number(2), rhs: Number(2), op: Operator::Mul }, ""),
    );
}

#[test]
fn lib_parse_one_plus_two() {
    assert_eq!(
        Expr::new("1+2"),
        (Expr { lhs: Number(1), rhs: Number(2), op: Operator::Add }, "")
    );
}

#[test]
fn lib_parse_add_operator() {
    assert_eq!(Operator::new("+"), (Operator::Add, ""));
}

#[test]
fn lib_parse_sub_operator() {
    assert_eq!(Operator::new("-"), (Operator::Sub, ""));
}

#[test]
fn lib_parse_mul_operator() {
    assert_eq!(Operator::new("*"), (Operator::Mul, ""));
}

#[test]
fn lib_parse_div_operator() {
    assert_eq!(Operator::new("/"), (Operator::Div, ""));
}

#[test]
fn lib_parse_numbers() {
    assert_eq!(Number::new("123"), (Number(123), ""));
}

#[test]
fn expr_parse_add_operator() {
    assert_eq!(expr::Operator::new("+"), Ok((expr::Operator::Add, "")));
}

#[test]
fn expr_parse_sub_operator() {
    assert_eq!(expr::Operator::new("-"), Ok((expr::Operator::Sub, "")));
}

#[test]
fn expr_parse_mul_operator() {
    assert_eq!(expr::Operator::new("*"), Ok((expr::Operator::Mul, "")));
}

#[test]
fn expr_parse_div_operator() {
    assert_eq!(expr::Operator::new("/"), Ok((expr::Operator::Div, "")));
}

#[test]
fn expr_parse_numbers() {
    assert_eq!(expr::Number::new("123"), Ok((expr::Number(123), "")));
}

#[test]
fn expr_number_rejects_non_digits() {
    assert_eq!(expr::Number::new("x1"), Err("expected digits".to_string()));
}

#[test]
fn expr_operator_rejects_other_characters() {
    assert_eq!(expr::Operator::new("%2"), Err("expected /".to_string()));
}

#[test]
fn number_keeps_the_rest() {
    assert_eq!(Number::new("42abc"), (Number(42), "abc"));
}
