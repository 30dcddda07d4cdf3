//! Errors raised while a request is decoded and turned into a command.

use vstd::prelude::*;
use vstd::string::*;

verus! {

/// Why a request could not be decoded or turned into a command.
#[derive(Clone, Copy, Debug, PartialEq, Eq, Structural)]
pub enum ProtocolError {
    /// The buffer holds no bytes at all.
    EmptyInput,
    /// A length prefix is missing, is not a decimal integer, is not closed by
    /// a carriage return and line feed, or does not end where the content does.
    BadLength,
    /// An element declares more bytes than the buffer still holds.
    Truncated,
    /// The request has no first element, or its first element is null.
    NullCommandName,
    /// An element after the first is null.
    NullArgument,
}

impl ProtocolError {
    /// The text of the error reply that reports this error.
    pub open spec fn message_spec(self) -> Seq<char> {
        match self {
            ProtocolError::EmptyInput => "ERR empty request"@,
            ProtocolError::BadLength => "ERR malformed length"@,
            ProtocolError::Truncated => "ERR truncated request"@,
            ProtocolError::NullCommandName => "ERR null command name"@,
            ProtocolError::NullArgument => "ERR null argument"@,
        }
    }

    /// Returns the text of the error reply that reports this error.
    pub fn message(&self) -> (text: String)
        ensures
            text@ == self.message_spec(),
    {
        match self {
            ProtocolError::EmptyInput => String::from_str("ERR empty request"),
            ProtocolError::BadLength => String::from_str("ERR malformed length"),
            ProtocolError::Truncated => String::from_str("ERR truncated request"),
            ProtocolError::NullCommandName => String::from_str("ERR null command name"),
            ProtocolError::NullArgument => String::from_str("ERR null argument"),
        }
    }
}

} // verus!
