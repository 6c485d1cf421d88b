//! Front end of a small language of floating-point expressions and functions:
//! a lexer, a precedence-climbing parser that builds an expression tree, and a
//! lowering of statements into a module of intermediate-representation
//! functions, each stage proved equal to its mathematical definition.
use vstd::prelude::*;

pub mod ast;
pub mod codegen;
pub mod lexer;
pub mod parser;
pub mod treeprinter;

verus! {

} // verus!
