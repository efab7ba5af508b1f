//! A codec between structured values and flat `KEY=VALUE` text, the format of
//! environment-variable files.
//!
//! Encoding walks a [`StructuredValue`] and writes one assignment per line,
//! with upper-case keys whose segments are joined by `_`:
//!
//! ```text
//! { a: 1, b: { c: 2 } }      A=1
//!                            B_C=2
//! ```
//!
//! Decoding turns the assignments of a text into a [`Value`], a container of
//! string pairs with lower-case keys. Both can be done in a namespace, with
//! [`prefixed`]: a prefix that opens every key that is written, and that a
//! key must begin with to be read.
//!
//! What the encoding of a value is, is stated by
//! [`structured::encoding`]; what decoding gives, by [`de::decoded`]. The
//! functions of this library are proved to compute these.

pub mod de;
pub mod decimal;
pub mod error;
pub mod lines;
pub mod prefixed;
pub mod round_trip;
pub mod ser;
pub mod structured;
pub mod text;
pub mod value;

pub use error::Error;
pub use structured::StructuredValue;
pub use value::Value;

pub use ser::to_string;
pub use ser::to_string_inner;
pub use ser::to_writer;
pub use ser::Serializer;

pub use de::from_iter;
pub use de::from_reader;
pub use de::from_str;

pub use prefixed::prefixed;
pub use prefixed::Prefixed;
