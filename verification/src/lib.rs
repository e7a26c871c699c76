//! A small source-to-assembly compiler for an expression language with
//! integer literals, unary increment/decrement, binary arithmetic,
//! identifiers, and lexically scoped `let` bindings.
//!
//! The pipeline runs strictly forward: a generic symbolic-expression tree
//! is parsed into a typed AST, the AST is compiled into a linear
//! instruction sequence against a persistent environment mapping names to
//! stack slots, and the instructions are rendered as assembly text.

pub mod adder;
pub mod ast;
pub mod compile;
pub mod env;
pub mod instr;
pub mod laws;
pub mod numeral;
pub mod surface;
