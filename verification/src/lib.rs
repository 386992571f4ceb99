//! A small scripting language: a recursive-descent parser producing an
//! abstract syntax tree, and a tree-walking interpreter with a typed,
//! single-scope variable environment.

pub mod ast;
pub mod cli;
pub mod environment;
pub mod interpreter;
pub mod parser;
pub mod printer;
pub mod value;
