//! A small expression language: a tokenizer, a precedence-climbing parser and
//! a tree-walking evaluator, each with a mathematical model of what it
//! computes.
pub mod chars;
pub mod numeral;
pub mod lexer;
pub mod ast;
pub mod grammar;
pub mod parser;
pub mod semantics;
pub mod interpreter;
pub mod render;
pub mod laws;
