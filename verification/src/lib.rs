//! A recursive-descent parser for propositional-logic sentences with
//! panic-mode error recovery.
//!
//! The parser turns a sequence of [`token::Token`]s into a
//! [`grammar::Expr`] tree. On malformed input it keeps going, so that one
//! pass reports every independent syntax error it can find.
//!
//! * [`token`], [`grammar`], [`errors`]: the data.
//! * [`model`]: the parser as a mathematical function on token sequences.
//! * [`parser`]: the executable parser, verified to compute the model.
//! * [`progress`]: every rule reads forward and only adds diagnostics.
//! * [`soundness`]: a parse without an error has read a sentence of the
//!   grammar.
//! * [`completeness`]: every sentence of the grammar is parsed without an
//!   error, and the grammar is unambiguous.
//! * [`balance`]: how the depth counter and the diagnostics account for the
//!   parentheses of the input.

pub mod token;
pub mod grammar;
pub mod errors;
pub mod model;
pub mod progress;
pub mod soundness;
pub mod completeness;
pub mod balance;
pub mod parser;
