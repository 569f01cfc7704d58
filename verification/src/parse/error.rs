//! What parsing can fail with.

use vstd::prelude::*;

verus! {

/// The ways in which parsing fails.
#[derive(Debug, Clone, Copy, PartialEq, Eq)]
pub enum Error {
    /// An expected token is missing, or a literal is malformed.
    ParseError,
    UnparsedText,
    NotImplemented,
    Assign,
    /// A token that cannot stand where it stands.
    UnexpectedToken,
    /// The parts of a `$[` form are no sequence.
    InvalidCondition,
    Type,
    /// A string literal of more than 64 bytes.
    StringSize,
}

impl Error {
    /// The name of the error in lower case, as a diagnostic line shows it
    /// after the quote sign.
    pub fn name(&self) -> (r: &'static str)
        ensures
            r@ == (match *self {
                Error::ParseError => "parseerror"@,
                Error::UnparsedText => "unparsedtext"@,
                Error::NotImplemented => "notimplemented"@,
                Error::Assign => "assign"@,
                Error::UnexpectedToken => "unexpectedtoken"@,
                Error::InvalidCondition => "invalidcondition"@,
                Error::Type => "type"@,
                Error::StringSize => "stringsize"@,
            }),
    {
        match *self {
            Error::ParseError => "parseerror",
            Error::UnparsedText => "unparsedtext",
            Error::NotImplemented => "notimplemented",
            Error::Assign => "assign",
            Error::UnexpectedToken => "unexpectedtoken",
            Error::InvalidCondition => "invalidcondition",
            Error::Type => "type",
            Error::StringSize => "stringsize",
        }
    }
}

} // verus!
