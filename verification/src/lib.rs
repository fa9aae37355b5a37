//! A small dynamically-typed scripting language: lexer, recursive-descent
//! parser, and tree-walking evaluator with nested lexical scopes, first-class
//! functions, and closures.
//!
//! Source text is lexed into tokens, parsed into an abstract syntax tree, and
//! executed by an evaluator that threads an explicit scope arena and collects
//! the lines written by `print` statements.

pub mod ast;
pub mod callable;
pub mod environment;
pub mod interpreter;
pub mod laws;
pub mod lexer;
pub mod number;
pub mod parser;
pub mod text;
