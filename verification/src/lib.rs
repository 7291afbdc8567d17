//! A verified arithmetic expression evaluator.
//!
//! A line of text containing decimal number literals, the four binary
//! operators `+ - * /` and parentheses is turned into an expression tree in
//! three verified stages: lexical tokenization, infix-to-postfix reordering
//! (the shunting-yard algorithm), and postfix evaluation over a value stack.
//! Whitespace and `=` characters are skipped; every other character is
//! rejected with a descriptive error.
//!
//! Numeric work is deliberately kept out: a literal travels through the
//! pipeline as its text, and the evaluator builds an [`eval::Expr`] tree
//! whose floating-point value a caller computes outside the library.

use vstd::prelude::*;

pub mod eval;
pub mod laws;
pub mod lexer;
pub mod op;
pub mod postfix;
pub mod token;
