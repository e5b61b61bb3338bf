//! A small expression language for parametric solid modeling: source spans
//! and tokens, a lexer, a precedence-climbing parser, the lowering of the
//! syntax tree into an arena of IR nodes, and the pieces of evaluation that
//! do not depend on floating point (scoped environments, argument
//! matching, integer arithmetic, exact unit conversion of literals), with
//! the error types of each stage.

pub mod arith;
pub mod ast;
pub mod call;
pub mod env;
pub mod error;
pub mod eval_error;
pub mod export;
pub mod geom_error;
pub mod ir;
pub mod lexer;
pub mod lower;
pub mod parser;
pub mod pipeline;
pub mod record;
pub mod span;
pub mod text;
pub mod thread;
pub mod token;
pub mod types;
pub mod units;
