//! Core of a graphing calculator: a lexer for arithmetic expressions over one
//! free variable, an operator-precedence (shunting-yard) parser producing an
//! abstract syntax tree, and helpers for evaluating that tree.
//!
//! Numeric literals are carried through the pipeline as their source text
//! (a sequence of digit and dot characters); converting a literal to a machine
//! float, and folding a tree over floats, is left to the embedding program.

pub mod ast;
pub mod errors;
pub mod token;
pub mod lexer;
pub mod parser;
pub mod function;
