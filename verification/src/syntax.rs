//! The verbs and adverbs by their role.

pub mod error;
pub mod ktree;
