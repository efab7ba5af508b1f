//! The reading of lines, which is `dotenvy`'s.

use crate::value::pair_views;
use dotenvy::Error as LineError;
use vstd::prelude::*;

verus! {

/// `dotenvy::Error`, the failure to read a line.
#[verifier::external_type_specification]
#[verifier::external_body]
pub struct ExLineError(LineError);

/// Whether `c` is an ASCII letter.
pub open spec fn is_ascii_letter(c: char) -> bool {
    ('a' <= c && c <= 'z') || ('A' <= c && c <= 'Z')
}

/// Whether `key` can be the key of a line: an ASCII letter or `_`, then
/// ASCII letters, digits, `_` and `.`.
pub open spec fn is_line_key(key: Seq<char>) -> bool {
    &&& key.len() > 0
    &&& is_ascii_letter(key[0]) || key[0] == '_'
    &&& forall|i: int|
        0 <= i < key.len() ==> is_ascii_letter(#[trigger] key[i]) || ('0' <= key[i] && key[i]
            <= '9') || key[i] == '_' || key[i] == '.'
}

/// Whether every key of `pairs` can be the key of a line.
pub open spec fn line_keys(pairs: Seq<(Seq<char>, Seq<char>)>) -> bool {
    forall|i: int| 0 <= i < pairs.len() ==> is_line_key((#[trigger] pairs[i]).0)
}

/// `dotenvy::from_read_iter` reads the assignments of a text, line by line,
/// and stops at the first line that it cannot read. A value may name a
/// variable of the process environment, so the values are not determined by
/// the text; every key is one that a line can have.
#[verifier::external_body]
pub(crate) fn read_pairs(input: &str) -> (r: Result<Vec<(String, String)>, LineError>)
    ensures
        r matches Ok(pairs) ==> line_keys(pair_views(pairs@)),
{
    dotenvy::from_read_iter(input.as_bytes()).collect()
}

} // verus!
