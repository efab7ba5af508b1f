//! The failures that encoding and decoding report.

use vstd::prelude::*;
use vstd::string::to_string_from_display_ensures;

verus! {

/// Possible errors.
#[derive(Debug, Clone, PartialEq, Eq)]
pub enum Error {
    /// A failure that a collaborator reported, by its text.
    Message(String),
    /// The input ended unexpectedly.
    Eof,
    /// A key holds a forbidden character, or the input is malformed.
    Syntax,
    /// A boolean was expected.
    ExpectedBoolean,
    /// An integer was expected.
    ExpectedInteger,
    /// A compound with positional fields was handed to the encoder.
    UnsupportedTupleStruct,
    /// A sequence held a sequence or a compound.
    UnsupportedStructureInSeq,
}

impl Error {
    /// What the error says.
    pub open spec fn message(self) -> Seq<char> {
        match self {
            Error::Message(m) => m@,
            Error::Eof => "Unexpected end of input"@,
            Error::Syntax => "Syntax error"@,
            Error::ExpectedBoolean => "Expected boolean"@,
            Error::ExpectedInteger => "Expected integer"@,
            Error::UnsupportedTupleStruct => "Tuple structs are not supported"@,
            Error::UnsupportedStructureInSeq => "Unsupported structure in sequence"@,
        }
    }

    /// What the error says, as a string.
    pub fn to_string(&self) -> (r: String)
        ensures
            r@ == self.message(),
    {
        match self {
            Error::Message(m) => m.clone(),
            Error::Eof => "Unexpected end of input".to_string(),
            Error::Syntax => "Syntax error".to_string(),
            Error::ExpectedBoolean => "Expected boolean".to_string(),
            Error::ExpectedInteger => "Expected integer".to_string(),
            Error::UnsupportedTupleStruct => "Tuple structs are not supported".to_string(),
            Error::UnsupportedStructureInSeq => "Unsupported structure in sequence".to_string(),
        }
    }

    /// Wraps a failure as [`Error::Message`], keeping the text that the
    /// failure displays.
    pub fn new<E: core::fmt::Display>(e: E) -> (r: Error)
        ensures
            r matches Error::Message(m) && to_string_from_display_ensures::<E>(&e, m),
    {
        Error::Message(e.to_string())
    }
}

} // verus!
