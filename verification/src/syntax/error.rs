//! What reading a verb or an adverb can fail with.

use vstd::prelude::*;

verus! {

/// The ways in which reading the syntax fails.
#[derive(Debug, Clone, Copy, PartialEq, Eq)]
pub enum Error {
    /// The text spells no verb or adverb.
    ParseError,
    UnparsedText,
    NotImplemented,
    Assign,
    UnexpectedToken,
    Type,
}

} // verus!
