//! Encoding and decoding in a namespace: a prefix that opens every key that
//! is written, and that a key must begin with to be read.

use crate::de::{decoded_from_lines, from_reader_inner, from_str_inner};
use crate::error::Error;
use crate::ser::{to_string_inner, to_writer_inner};
use crate::structured::{encoding, namespace, StructuredValue};
use crate::value::Value;
use vstd::prelude::*;
use vstd::utf8::{encode_utf8, valid_utf8};

verus! {

/// Helper structure to work with prefixed environment variables: it encodes
/// and decodes with one prefix. Use [`prefixed`] to make one.
pub struct Prefixed<'a>(&'a str);

impl<'a> View for Prefixed<'a> {
    type V = Seq<char>;

    /// The prefix, as it was given.
    closed spec fn view(&self) -> Seq<char> {
        self.0@
    }
}

/// Instantiates [`Prefixed`], from which values can be both serialized and
/// deserialized with a prefix.
///
/// The prefix is put before every key that is written, in upper case, and a
/// key that is read must begin with it, whatever the case of either.
pub fn prefixed(prefix: &str) -> (r: Prefixed<'_>)
    ensures
        r@ == prefix@,
{
    Prefixed(prefix)
}

impl<'a> Prefixed<'a> {
    /// Deserialize the environment variables of a string that belong to the
    /// prefix into a [`Value`]; their keys lose the prefix.
    pub fn from_str(&self, input: &str) -> (r: Result<Value, Error>)
        ensures
            match r {
                Ok(value) => value.wf() && decoded_from_lines(Some(self@), value@),
                Err(e) => e is Message,
            },
    {
        from_str_inner(Some(self.0), input)
    }

    /// Deserialize the environment variables that belong to the prefix from
    /// the bytes of a reader into a [`Value`]; their keys lose the prefix.
    pub fn from_reader(&self, reader: &[u8]) -> (r: Result<Value, Error>)
        ensures
            match r {
                Ok(value) => valid_utf8(reader@) && value.wf() && decoded_from_lines(
                    Some(self@),
                    value@,
                ),
                Err(e) => e is Message,
            },
    {
        from_reader_inner(Some(self.0), reader)
    }

    /// Serialize data as environment variables into a writer; the keys begin
    /// with the prefix, in upper case.
    pub fn to_writer(&self, writer: &mut Vec<u8>, v: &StructuredValue) -> (r: Result<(), Error>)
        ensures
            match encoding(namespace(Some(self@)), v@) {
                Ok(text) => r is Ok && final(writer)@ == old(writer)@ + encode_utf8(text),
                Err(e) => r == Err::<(), Error>(e) && final(writer)@ == old(writer)@,
            },
    {
        to_writer_inner(Some(self.0), writer, v)
    }

    /// Serialize data into an environment variable string whose keys begin
    /// with the prefix, in upper case.
    pub fn to_string(&self, v: &StructuredValue) -> (r: Result<String, Error>)
        ensures
            match encoding(namespace(Some(self@)), v@) {
                Ok(text) => r matches Ok(s) && s@ == text,
                Err(e) => r == Err::<String, Error>(e),
            },
    {
        to_string_inner(Some(self.0), v)
    }
}

} // verus!
