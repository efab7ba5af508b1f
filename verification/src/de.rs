//! The decoder: from assignments, or from the text that holds them, to a
//! [`Value`] with lower-case keys.
//!
//! The text is read by `dotenvy`, which owns quoting, comments and
//! continuation lines. What is decided here is which assignments belong to a
//! namespace, what their keys become, and which of two assignments to one key
//! counts.

use crate::error::Error;
use crate::lines::{line_keys, read_pairs};
use crate::text::{lower_case, prefix_chars, string_of, to_lower};
use crate::value::{collected, distinct_keys, inserted, lemma_inserted, pair_views, Value};
use vstd::prelude::*;
use vstd::slice::slice_to_vec;
use vstd::utf8::valid_utf8;

verus! {

/// What is left of a lower-case key in a namespace, given in lower case: the
/// key without the namespace at its front, and nothing for a key that does
/// not begin with the namespace. Without a namespace every key is kept whole.
pub open spec fn stripped(namespace: Option<Seq<char>>, key: Seq<char>) -> Option<Seq<char>> {
    match namespace {
        None => Some(key),
        Some(front) => if front.is_prefix_of(key) {
            Some(key.skip(front.len() as int))
        } else {
            None
        },
    }
}

/// The lower-case form of a prefix, where one is given.
pub open spec fn lowered(prefix: Option<Seq<char>>) -> Option<Seq<char>> {
    match prefix {
        Some(p) => Some(lower_case(p)),
        None => None,
    }
}

/// The key under which an assignment to `key` is decoded: the key in lower
/// case, without the prefix. The prefix is compared in lower case too, so it
/// is matched whatever the case of either; an assignment whose key does not
/// begin with the prefix is left out.
pub open spec fn decoded_key(prefix: Option<Seq<char>>, key: Seq<char>) -> Option<Seq<char>> {
    stripped(lowered(prefix), lower_case(key))
}

/// What decoding `pairs` gives: the assignments that belong to the prefix,
/// under their decoded keys, inserted in order. Of two assignments to one
/// key the later gives the value.
pub open spec fn decoded(prefix: Option<Seq<char>>, pairs: Seq<(Seq<char>, Seq<char>)>) -> Seq<
    (Seq<char>, Seq<char>),
>
    decreases pairs.len(),
{
    if pairs.len() == 0 {
        Seq::empty()
    } else {
        let before = decoded(prefix, pairs.drop_last());
        match decoded_key(prefix, pairs.last().0) {
            Some(key) => inserted(before, key, pairs.last().1),
            None => before,
        }
    }
}

/// Decoding never gives one key twice.
pub proof fn lemma_decoded_distinct(prefix: Option<Seq<char>>, pairs: Seq<(Seq<char>, Seq<char>)>)
    ensures
        distinct_keys(decoded(prefix, pairs)),
    decreases pairs.len(),
{
    if pairs.len() > 0 {
        lemma_decoded_distinct(prefix, pairs.drop_last());
        match decoded_key(prefix, pairs.last().0) {
            Some(key) => {
                lemma_inserted(decoded(prefix, pairs.drop_last()), key, pairs.last().1, key);
            },
            None => {},
        }
    }
}

/// Without a prefix, decoding is collecting the assignments under their
/// lower-case keys.
pub proof fn lemma_decoded_plain(pairs: Seq<(Seq<char>, Seq<char>)>)
    ensures
        decoded(None, pairs) == collected(
            pairs.map_values(|p: (Seq<char>, Seq<char>)| (lower_case(p.0), p.1)),
        ),
    decreases pairs.len(),
{
    let mapped = pairs.map_values(|p: (Seq<char>, Seq<char>)| (lower_case(p.0), p.1));
    if pairs.len() > 0 {
        lemma_decoded_plain(pairs.drop_last());
        assert(mapped.drop_last() =~= pairs.drop_last().map_values(
            |p: (Seq<char>, Seq<char>)| (lower_case(p.0), p.1),
        ));
    }
}

/// The key that is left of the lower-case key `key` in the namespace
/// `namespace`, itself in lower case.
fn strip_key(namespace: &Option<Vec<char>>, key: &Vec<char>) -> (r: Option<String>)
    ensures
        match stripped(
            match namespace {
                Some(front) => Some(front@),
                None => None,
            },
            key@,
        ) {
            Some(rest) => r matches Some(s) && s@ == rest,
            None => r is None,
        },
{
    match namespace {
        None => Some(string_of(key)),
        Some(front) => {
            if front.len() > key.len() {
                return None;
            }
            let mut i: usize = 0;
            while i < front.len()
                invariant
                    *namespace == Some(*front),
                    i <= front.len() <= key.len(),
                    forall|j: int| 0 <= j < i ==> front@[j] == key@[j],
                decreases front.len() - i,
            {
                if front[i] != key[i] {
                    assert(!front@.is_prefix_of(key@)) by {
                        if front@.is_prefix_of(key@) {
                            assert(key@.subrange(0, front@.len() as int)[i as int] == key@[i as int]);
                        }
                    }
                    return None;
                }
                i += 1;
            }
            assert(key@.subrange(0, front@.len() as int) =~= front@);
            assert(front@.is_prefix_of(key@));
            let mut rest: Vec<char> = Vec::new();
            let mut k: usize = front.len();
            while k < key.len()
                invariant
                    front.len() <= k <= key.len(),
                    rest@ == key@.subrange(front.len() as int, k as int),
                decreases key.len() - k,
            {
                rest.push(key[k]);
                k += 1;
            }
            assert(rest@ =~= key@.skip(front@.len() as int));
            Some(string_of(&rest))
        },
    }
}

/// Decodes assignments into a [`Value`]: every key in lower case, of two
/// assignments to one key the later.
pub fn from_iter(pairs: Vec<(String, String)>) -> (r: Result<Value, Error>)
    ensures
        r matches Ok(value) && value@ == decoded(None, pair_views(pairs@)) && value.wf(),
{
    from_iter_inner(None, pairs)
}

/// The assignments that belong to `prefix`, in order, each under its
/// decoded key: what is left to be read once the prefix is dealt with.
pub open spec fn selected(prefix: Option<Seq<char>>, pairs: Seq<(Seq<char>, Seq<char>)>) -> Seq<
    (Seq<char>, Seq<char>),
>
    decreases pairs.len(),
{
    if pairs.len() == 0 {
        Seq::empty()
    } else {
        let before = selected(prefix, pairs.drop_last());
        match decoded_key(prefix, pairs.last().0) {
            Some(key) => before.push((key, pairs.last().1)),
            None => before,
        }
    }
}

/// Decoding is selecting the assignments that belong to the prefix and
/// collecting them into a container.
pub proof fn lemma_decoded_is_collected(
    prefix: Option<Seq<char>>,
    pairs: Seq<(Seq<char>, Seq<char>)>,
)
    ensures
        decoded(prefix, pairs) == collected(selected(prefix, pairs)),
    decreases pairs.len(),
{
    if pairs.len() > 0 {
        lemma_decoded_is_collected(prefix, pairs.drop_last());
        let before = selected(prefix, pairs.drop_last());
        match decoded_key(prefix, pairs.last().0) {
            Some(key) => {
                assert(before.push((key, pairs.last().1)).drop_last() =~= before);
            },
            None => {},
        }
    }
}

/// Selects the assignments that belong to `prefix`: those whose keys begin
/// with it, whatever the case of either. Each is kept under its key in lower
/// case, without the prefix; the others are left out. Without a prefix every
/// assignment is kept, under its key in lower case.
pub fn strip_prefix(prefix: Option<&str>, pairs: Vec<(String, String)>) -> (r: Vec<
    (String, String),
>)
    ensures
        pair_views(r@) == selected(prefix_chars(prefix), pair_views(pairs@)),
{
    let namespace: Option<Vec<char>> = match prefix {
        Some(p) => Some(to_lower(p)),
        None => None,
    };
    let mut kept: Vec<(String, String)> = Vec::new();
    let mut i: usize = 0;
    while i < pairs.len()
        invariant
            i <= pairs.len(),
            match namespace {
                Some(front) => lowered(prefix_chars(prefix)) == Some(front@),
                None => lowered(prefix_chars(prefix)) is None,
            },
            pair_views(kept@) == selected(prefix_chars(prefix), pair_views(pairs@).take(i as int)),
        decreases pairs.len() - i,
    {
        let ghost views = pair_views(pairs@);
        let ghost before = pair_views(kept@);
        assert(views.take(i + 1).drop_last() =~= views.take(i as int));
        let lower = to_lower(pairs[i].0.as_str());
        match strip_key(&namespace, &lower) {
            Some(key) => {
                kept.push((key, pairs[i].1.clone()));
                assert(pair_views(kept@) =~= before.push((key@, pairs@[i as int].1@)));
            },
            None => {},
        }
        i += 1;
    }
    assert(pair_views(pairs@).take(i as int) =~= pair_views(pairs@));
    kept
}

/// Decodes the assignments that belong to `prefix` into a [`Value`]. An
/// assignment belongs to the prefix if its key begins with it, whatever the
/// case of either; its key is decoded in lower case and without the prefix.
/// Without a prefix every assignment belongs.
pub fn from_iter_inner(prefix: Option<&str>, pairs: Vec<(String, String)>) -> (r: Result<
    Value,
    Error,
>)
    ensures
        r matches Ok(value) && value@ == decoded(prefix_chars(prefix), pair_views(pairs@))
            && value.wf(),
{
    proof {
        lemma_decoded_is_collected(prefix_chars(prefix), pair_views(pairs@));
    }
    Ok(Value::from_iter(strip_prefix(prefix, pairs)))
}

/// Reads the assignments of a string, line by line. The lines are read by
/// `dotenvy`; a text that it cannot read is refused with its message. Every
/// key that is read is one that a line can have.
pub fn pairs_from_str(input: &str) -> (r: Result<Vec<(String, String)>, Error>)
    ensures
        match r {
            Ok(pairs) => line_keys(pair_views(pairs@)),
            Err(e) => e is Message,
        },
{
    pairs_from_read(read_pairs(input))
}

/// What reading comes to, for whatever the reader gave: the assignments that
/// it read, as they are and in their order, or its failure as a message with
/// the text that the failure displays.
pub fn pairs_from_read<E: core::fmt::Display>(read: Result<Vec<(String, String)>, E>) -> (r: Result<
    Vec<(String, String)>,
    Error,
>)
    ensures
        match read {
            Ok(pairs) => r == Ok::<Vec<(String, String)>, Error>(pairs),
            Err(e) => r matches Err(Error::Message(m))
                && vstd::string::to_string_from_display_ensures::<E>(&e, m),
        },
{
    match read {
        Ok(pairs) => Ok(pairs),
        Err(e) => Err(Error::new(e)),
    }
}

/// Whether `entries` is what decoding some assignments, with keys that lines
/// can have, gives for `prefix`.
pub open spec fn decoded_from_lines(
    prefix: Option<Seq<char>>,
    entries: Seq<(Seq<char>, Seq<char>)>,
) -> bool {
    exists|pairs: Seq<(Seq<char>, Seq<char>)>|
        line_keys(pairs) && #[trigger] decoded(prefix, pairs) == entries
}

/// Deserialize environment variables from a string into a [`Value`].
///
/// The lines are read by `dotenvy`; a text that it cannot read is refused
/// with its message. The assignments that it reads are decoded as
/// [`from_iter`] decodes them.
pub fn from_str(input: &str) -> (r: Result<Value, Error>)
    ensures
        match r {
            Ok(value) => value.wf() && decoded_from_lines(None, value@),
            Err(e) => e is Message,
        },
{
    from_str_inner(None, input)
}

/// Deserialize the environment variables of a string that belong to
/// `prefix` into a [`Value`].
///
/// The lines are read by `dotenvy`; a text that it cannot read is refused
/// with its message. The assignments that it reads are decoded as
/// [`from_iter_inner`] decodes them.
pub fn from_str_inner(prefix: Option<&str>, input: &str) -> (r: Result<Value, Error>)
    ensures
        match r {
            Ok(value) => value.wf() && decoded_from_lines(prefix_chars(prefix), value@),
            Err(e) => e is Message,
        },
{
    match pairs_from_str(input) {
        Ok(pairs) => from_iter_inner(prefix, pairs),
        Err(e) => Err(e),
    }
}

/// Deserialize environment variables from the bytes of a reader into a
/// [`Value`]. Bytes that are no UTF-8 are refused with a message; the text
/// that they encode is decoded as [`from_str`] decodes it.
pub fn from_reader(reader: &[u8]) -> (r: Result<Value, Error>)
    ensures
        match r {
            Ok(value) => valid_utf8(reader@) && value.wf() && decoded_from_lines(None, value@),
            Err(e) => e is Message,
        },
{
    from_reader_inner(None, reader)
}

/// Deserialize the environment variables that belong to `prefix` from the
/// bytes of a reader into a [`Value`]. Bytes that are no UTF-8 are refused
/// with a message; the text that they encode is decoded as
/// [`from_str_inner`] decodes it.
pub fn from_reader_inner(prefix: Option<&str>, reader: &[u8]) -> (r: Result<Value, Error>)
    ensures
        match r {
            Ok(value) => valid_utf8(reader@) && value.wf() && decoded_from_lines(
                prefix_chars(prefix),
                value@,
            ),
            Err(e) => e is Message,
        },
{
    match String::from_utf8(slice_to_vec(reader)) {
        Ok(text) => from_str_inner(prefix, text.as_str()),
        Err(e) => Err(Error::new(e)),
    }
}

} // verus!
