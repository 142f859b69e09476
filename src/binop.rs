use vstd::prelude::*;

use crate::lexer::{run_end, CharClass};
use crate::number::{all_digits, digits_value, parse_u64};
use crate::utils::{
    extract_digits, extract_op, extract_whitespace, is_operator, lemma_run_members, split_run,
};

verus! {

/// A decimal integer.
#[derive(Debug, Clone, Copy, PartialEq, Eq, Structural)]
pub struct Number(pub i32);

/// The run of digits at the start of `s` is there and its value fits in an `i32`.
pub open spec fn leading_number_fits(s: Seq<char>) -> bool {
    &&& run_end(s, 0, CharClass::Digit) > 0
    &&& digits_value(split_run(s, CharClass::Digit).0) <= i32::MAX
}

impl Number {
    /// Reads the number at the start of `s`; returns it and the rest of `s`.
    pub fn new(s: &str) -> (r: (Number, &str))
        requires
            leading_number_fits(s@),
        ensures
            r.0.0 == digits_value(split_run(s@, CharClass::Digit).0),
            r.1@ == split_run(s@, CharClass::Digit).1,
    {
        proof {
            lemma_run_members(s@, 0, CharClass::Digit);
        }
        match extract_digits(s) {
            Ok((number, remainder)) => {
                assert(all_digits(number@));
                match parse_u64(number) {
                    Some(v) => (Number(v as i32), remainder),
                    None => (Number(0), s),
                }
            },
            Err(_) => (Number(0), s),
        }
    }
}

/// An arithmetic operator.
#[derive(Debug, Clone, Copy, PartialEq, Eq, Structural)]
pub enum Operator {
    Add,
    Sub,
    Mul,
    Div,
}

pub open spec fn operator_of(c: char) -> Operator {
    if c == '+' {
        Operator::Add
    } else if c == '-' {
        Operator::Sub
    } else if c == '*' {
        Operator::Mul
    } else {
        Operator::Div
    }
}

impl Operator {
    /// Reads the operator character at the start of `s`; returns it and the rest of `s`.
    pub fn new(s: &str) -> (r: (Operator, &str))
        requires
            s@.len() > 0,
            is_operator(s@[0]),
        ensures
            r.0 == operator_of(s@[0]),
            r.1@ == s@.skip(1),
    {
        let (op_str, remainder) = extract_op(s);
        let c = op_str.get_char(0);
        let op = if c == '+' {
            Operator::Add
        } else if c == '-' {
            Operator::Sub
        } else if c == '*' {
            Operator::Mul
        } else {
            Operator::Div
        };
        (op, remainder)
    }
}

/// A number, an operator and a number, with optional whitespace around each.
#[derive(Debug, Clone, Copy, PartialEq, Eq, Structural)]
pub struct Expr {
    pub lhs: Number,
    pub rhs: Number,
    pub op: Operator,
}

pub open spec fn skip_space(s: Seq<char>) -> Seq<char> {
    split_run(s, CharClass::Space).1
}

/// The text after the left operand and the whitespace that follows it.
pub open spec fn after_lhs(s: Seq<char>) -> Seq<char> {
    skip_space(split_run(skip_space(s), CharClass::Digit).1)
}

/// The text after the operator and the whitespace that follows it.
pub open spec fn after_op(s: Seq<char>) -> Seq<char> {
    skip_space(after_lhs(s).skip(1))
}

/// `s` has the shape that `Expr::new` reads.
pub open spec fn expr_shape(s: Seq<char>) -> bool {
    &&& leading_number_fits(skip_space(s))
    &&& after_lhs(s).len() > 0
    &&& is_operator(after_lhs(s)[0])
    &&& leading_number_fits(after_op(s))
}

impl Expr {
    /// Reads `number operator number`, with whitespace around each; returns the expression
    /// and the rest of `s`.
    pub fn new(s: &str) -> (r: (Expr, &str))
        requires
            expr_shape(s@),
        ensures
            r.0.lhs.0 == digits_value(split_run(skip_space(s@), CharClass::Digit).0),
            r.0.op == operator_of(after_lhs(s@)[0]),
            r.0.rhs.0 == digits_value(split_run(after_op(s@), CharClass::Digit).0),
            r.1@ == skip_space(split_run(after_op(s@), CharClass::Digit).1),
    {
        let (_, s) = extract_whitespace(s);
        let (lhs, s) = Number::new(s);
        let (_, s) = extract_whitespace(s);
        let (op, s) = Operator::new(s);
        let (_, s) = extract_whitespace(s);
        let (rhs, s) = Number::new(s);
        let (_, s) = extract_whitespace(s);
        (Expr { lhs, rhs, op }, s)
    }
}

} // verus!
