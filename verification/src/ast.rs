//! The typed expression AST that the code generator walks.

use vstd::prelude::*;

verus! {

/// Unary operators: increment and decrement by one.
#[derive(Debug, Clone, Copy, PartialEq, Eq, Structural)]
pub enum Op1 {
    Add1,
    Sub1,
}

/// Binary arithmetic operators.
#[derive(Debug, Clone, Copy, PartialEq, Eq, Structural)]
pub enum Op2 {
    Plus,
    Minus,
    Times,
}

/// An expression: a finite tree, immutable once built.
///
/// `Let` carries an ordered sequence of bindings, evaluated left to
/// right; each binding may refer to earlier bindings of the same `let`
/// but not to later ones or to itself, and the body sees all of them.
#[derive(Debug)]
pub enum Expr {
    Number(i32),
    Id(String),
    Let(Vec<(String, Expr)>, Box<Expr>),
    UnOp(Op1, Box<Expr>),
    BinOp(Op2, Box<Expr>, Box<Expr>),
}

} // verus!
