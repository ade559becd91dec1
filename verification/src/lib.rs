//! The front end and evaluator of a small dynamically-typed expression
//! language: a scanner, a recursive-descent parser, and a tree-walking
//! interpreter over one flat mutable variable environment.

pub mod expr;
pub mod interpreter;
pub mod parser;
pub mod rox_type;
pub mod scanner;
pub mod token;
