//! Source text to expression trees: the node store, the tokens and the parser.

pub mod ascii;
pub mod error;
pub mod vector;
pub mod ast;
pub mod arena;
pub mod store;
pub mod token;
pub mod source;
pub mod grammar;
pub mod growth;
pub mod parser;
pub mod show;
