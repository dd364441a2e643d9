//! A single-pass lexical scanner for a small scripting language: source text
//! in, tokens and lexical errors out, each step proved against a model of
//! the scan.

use vstd::prelude::*;

pub mod token;
pub mod model;
pub mod scanner;
pub mod lex;
pub mod laws;

verus! {

} // verus!
