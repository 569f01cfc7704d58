//! What evaluation can fail with.

use vstd::prelude::*;

verus! {

/// The ways in which evaluation fails.
#[derive(Debug, Clone, Copy, PartialEq, Eq)]
pub enum Error {
    /// A node refers to a cell or a scope that does not exist.
    RuntimeError,
    /// A verb got the wrong number of arguments.
    Rank,
    /// Arithmetic or comparison on operands of an unsupported shape.
    Type,
    /// Two vectors of different lengths were combined element by element.
    Length,
    /// A condition with the wrong number of parts, or whose test is no boolean.
    Condition,
    /// Something that cannot be called was applied.
    Call,
    /// An unknown name, or a verb that has no evaluation rule.
    Undefined,
    /// The evaluation is nested deeper than the interpreter allows.
    Stack,
    InvalidString,
    /// The node has no evaluation rule yet.
    NotImplemented,
    InvalidType,
    /// A built-in function got an argument of the wrong shape.
    InvalidNativeCall,
}

impl Error {
    /// The name of the error in lower case, as a diagnostic line shows it
    /// after the quote sign.
    pub fn name(&self) -> (r: &'static str)
        ensures
            r@ == (match *self {
                Error::RuntimeError => "runtimeerror"@,
                Error::Rank => "rank"@,
                Error::Type => "type"@,
                Error::Length => "length"@,
                Error::Condition => "condition"@,
                Error::Call => "call"@,
                Error::Undefined => "undefined"@,
                Error::Stack => "stack"@,
                Error::InvalidString => "invalidstring"@,
                Error::NotImplemented => "notimplemented"@,
                Error::InvalidType => "invalidtype"@,
                Error::InvalidNativeCall => "invalidnativecall"@,
            }),
    {
        match *self {
            Error::RuntimeError => "runtimeerror",
            Error::Rank => "rank",
            Error::Type => "type",
            Error::Length => "length",
            Error::Condition => "condition",
            Error::Call => "call",
            Error::Undefined => "undefined",
            Error::Stack => "stack",
            Error::InvalidString => "invalidstring",
            Error::NotImplemented => "notimplemented",
            Error::InvalidType => "invalidtype",
            Error::InvalidNativeCall => "invalidnativecall",
        }
    }
}

} // verus!
