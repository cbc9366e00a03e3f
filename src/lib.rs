use vstd::prelude::*;

pub mod error;
pub mod equiv;
pub mod eval;
pub mod fold;
pub mod lexer;
pub mod op;
pub mod parser;
pub mod render;
pub mod reparse;
pub mod step;
pub mod store;
pub mod syntax;

verus! {

} // verus!
