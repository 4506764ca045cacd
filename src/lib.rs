//! A lexical scanner for a small dynamically-typed scripting language: it
//! turns source text into classified tokens and recoverable lexical errors.
use vstd::prelude::*;

pub mod diagnostic;
pub mod laws;
pub mod model;
pub mod scanner;
pub mod text;
pub mod token;

verus! {

} // verus!
