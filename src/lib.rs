//! Front end of a small expression language: a scanner that turns source
//! text into tokens, a recursive-descent parser that builds a syntax tree,
//! and an evaluator that walks the tree.
use vstd::prelude::*;

pub mod lexer;
pub mod laws;
pub mod parser;

verus! {

} // verus!
