//! Front end and evaluator for a small dynamically typed expression
//! language: a scanner that turns source text into tokens, a
//! recursive-descent parser that turns tokens into an expression tree,
//! and a type-directed evaluator that turns a tree into a runtime value.

use vstd::prelude::*;

pub mod expressions;
pub mod interpreter;
pub mod laws;
pub mod parser;
pub mod scanner;
pub mod tokens;

verus! {

/// Error for a command line that the driver cannot act on.
#[derive(Debug, Clone, PartialEq)]
pub enum UsageError {
    TooManyArgs,
}

} // verus!
