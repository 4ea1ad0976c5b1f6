//! A tree-walking interpreter for the Monkey expression language.
//!
//! Source text is lexed into tokens, parsed by a Pratt-style operator
//! precedence parser into an abstract syntax tree, and evaluated under
//! lexically scoped environments with first-class functions and closures.

pub mod ast;
pub mod evaluator;
pub mod laws;
pub mod lexer;
pub mod object;
pub mod parser;
pub mod text;
pub mod token;
