pub mod text;
pub mod syntax;
pub mod lexer;
pub mod tree;
pub mod render;
pub mod parser;
pub mod ast;
pub mod validation;
pub mod hir;
pub mod number;
pub mod utils;
pub mod binop;
pub mod expr;

pub use binop::{Expr, Number, Operator};
