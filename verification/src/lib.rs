//! An interpreter core for a compact array language of the K family:
//! an arena of tree nodes, a tokenizer and parser, a scope tree and a
//! tree-walking evaluator, each with a mathematical model and contracts.

pub mod parse;
pub mod exec;
pub mod syntax;
