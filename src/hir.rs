use vstd::prelude::*;

verus! {

/// A statement of the high-level representation.
#[derive(Debug)]
pub enum Stmt {
    VariableDef { name: String, value: Expr },
    Expr(Expr),
}

/// An expression of the high-level representation; `Missing` stands where the source
/// lacked one.
#[derive(Debug)]
pub enum Expr {
    Binary { op: BinaryOp, lhs: Box<Expr>, rhs: Box<Expr> },
    Literal { n: u64 },
    Unary { op: UnaryOp, expr: Box<Expr> },
    VariableRef { var: String },
    Missing,
}

#[derive(Debug, Clone, Copy, PartialEq, Eq, Structural)]
pub enum BinaryOp {
    Add,
    Sub,
    Mul,
    Div,
}

#[derive(Debug, Clone, Copy, PartialEq, Eq, Structural)]
pub enum UnaryOp {
    Neg,
}

} // verus!
