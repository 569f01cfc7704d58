//! Evaluation: the scope tree and the tree-walking evaluator.

pub mod error;
pub mod env;
pub mod semantics;
pub mod i10;
pub mod laws;
pub mod growth;
