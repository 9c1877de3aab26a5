//! The front end of a tree-walking interpreter for the Lox language, with
//! its behaviour stated as contracts: the scanner, the parser, the printed
//! forms of tokens and trees, the string interner, and what the evaluator
//! decides without numbers (its scopes, and which operation each operator
//! performs).

pub mod ast;
pub mod chars;
pub mod env;
pub mod grammar;
pub mod interner;
pub mod listing;
pub mod model;
pub mod ops;
pub mod parser;
pub mod precedence;
pub mod printable;
pub mod render;
pub mod scanner;
pub mod span;
pub mod text;
