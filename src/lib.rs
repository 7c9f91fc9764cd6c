//! A parser and tree-walking evaluator for a small parenthesised expression
//! language: arithmetic, booleans, conditionals, loops, variables,
//! user-defined functions, sequencing, and line-based input and output.
//!
//! - [`tokens`]: the expression tree and the parser (`Expr::token_tree`).
//! - [`semantics`]: what evaluation means, over the models of trees and
//!   environments.
//! - [`eval`]: the evaluator (`Expr::evaluate`, `Expr::exec`, `Expr::run`),
//!   proved to follow [`semantics`].
//! - [`env`], [`values`], [`functions`], [`errors`], [`types`]: the data
//!   the evaluator works on, each with its model.
//! - [`text`]: whitespace, trimming and decimal numbers.
//! - [`laws`]: properties of the language, proved over the models.

pub mod env;
pub mod errors;
pub mod eval;
pub mod functions;
pub mod laws;
pub mod semantics;
pub mod text;
pub mod tokens;
pub mod types;
pub mod values;
