use vstd::prelude::*;

use crate::binop::operator_of;
use crate::lexer::{run_end, CharClass};
use crate::number::{all_digits, digits_value, parse_u64};
use crate::utils::{extract_digits, is_operator, lemma_run_members, split_run, tag};

verus! {

/// A decimal integer.
#[derive(Debug, Clone, Copy, PartialEq, Eq, Structural)]
pub struct Number(pub i32);

impl Number {
    /// Reads the number at the start of `s`; returns it and the rest of `s`, or an error
    /// when `s` does not start with a digit.
    pub fn new(s: &str) -> (r: Result<(Number, &str), String>)
        requires
            run_end(s@, 0, CharClass::Digit) > 0 ==> digits_value(
                split_run(s@, CharClass::Digit).0,
            ) <= i32::MAX,
        ensures
            match r {
                Ok((n, rest)) => {
                    &&& run_end(s@, 0, CharClass::Digit) > 0
                    &&& n.0 == digits_value(split_run(s@, CharClass::Digit).0)
                    &&& rest@ == split_run(s@, CharClass::Digit).1
                },
                Err(e) => run_end(s@, 0, CharClass::Digit) == 0 && e@ == "expected digits"@,
            },
    {
        proof {
            lemma_run_members(s@, 0, CharClass::Digit);
        }
        let (number, remainder) = match extract_digits(s) {
            Ok(split) => split,
            Err(e) => {
                return Err(e);
            },
        };
        assert(all_digits(number@));
        match parse_u64(number) {
            Some(v) => Ok((Number(v as i32), remainder)),
            None => Ok((Number(0), remainder)),
        }
    }
}

/// An arithmetic operator.
#[derive(Debug, Clone, Copy, PartialEq, Eq, Structural)]
pub enum Operator {
    Add,
    Sub,
    Mul,
    Div,
}

pub open spec fn expr_operator_of(c: char) -> Operator {
    match operator_of(c) {
        crate::binop::Operator::Add => Operator::Add,
        crate::binop::Operator::Sub => Operator::Sub,
        crate::binop::Operator::Mul => Operator::Mul,
        crate::binop::Operator::Div => Operator::Div,
    }
}

impl Operator {
    /// Reads the operator at the start of `s`; returns it and the rest of `s`, or the error
    /// of the last alternative tried when `s` starts with none.
    pub fn new(s: &str) -> (r: Result<(Operator, &str), String>)
        ensures
            match r {
                Ok((op, rest)) => {
                    &&& s@.len() > 0
                    &&& is_operator(s@[0])
                    &&& op == expr_operator_of(s@[0])
                    &&& rest@ == s@.skip(1)
                },
                Err(e) => !(s@.len() > 0 && is_operator(s@[0])) && e@ == "expected /"@,
            },
    {
        proof {
            reveal_strlit("+");
            reveal_strlit("-");
            reveal_strlit("*");
            reveal_strlit("/");
        }
        let r = match tag("+", s) {
            Ok(rest) => {
                assert(("+"@ + rest@)[0] == '+');
                assert(rest@ =~= s@.skip(1));
                Ok((Operator::Add, rest))
            },
            Err(_) => match tag("-", s) {
                Ok(rest) => {
                    assert(("-"@ + rest@)[0] == '-');
                    assert(rest@ =~= s@.skip(1));
                    Ok((Operator::Sub, rest))
                },
                Err(_) => match tag("*", s) {
                    Ok(rest) => {
                        assert(("*"@ + rest@)[0] == '*');
                        assert(rest@ =~= s@.skip(1));
                        Ok((Operator::Mul, rest))
                    },
                    Err(_) => match tag("/", s) {
                        Ok(rest) => {
                            assert(("/"@ + rest@)[0] == '/');
                            assert(rest@ =~= s@.skip(1));
                            Ok((Operator::Div, rest))
                        },
                        Err(e) => {
                            assert(!(s@.len() > 0 && is_operator(s@[0]))) by {
                                if s@.len() > 0 && is_operator(s@[0]) {
                                    assert(s@.take(1) =~= seq![s@[0]]);
                                    assert("+"@ =~= seq!['+']);
                                    assert("-"@ =~= seq!['-']);
                                    assert("*"@ =~= seq!['*']);
                                    assert("/"@ =~= seq!['/']);
                                }
                            }
                            proof {
                                reveal_strlit("expected ");
                                reveal_strlit("expected /");
                                assert(e@ =~= "expected /"@);
                            }
                            Err(e)
                        },
                    },
                },
            },
        };
        r
    }
}

} // verus!
