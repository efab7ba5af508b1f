//! What encoding and decoding do to each other.
//!
//! Encoding writes keys in upper case and decoding reads them in lower case,
//! so a container comes back as it was where its keys are in lower case, and
//! a text comes back as it was where its keys are in upper case. The lines
//! themselves are read outside of this library; what is shown here is shown
//! of the assignments that the lines hold.

use crate::de::{decoded, decoded_from_lines, decoded_key, lemma_decoded_distinct};
use crate::lines::{is_line_key, line_keys};
use crate::ser::entries_lines;
use crate::structured::{namespace, quoted};
use crate::text::{
    lemma_case_of_case, lemma_case_of_concat, lemma_lower_case_ascii, lemma_upper_case_ascii,
    lower_case, no_capitals, no_smalls, upper_case,
};
use crate::value::{distinct_keys, index_of_key, inserted, lemma_index_of_key};
use vstd::prelude::*;
use vstd::utf8::is_ascii_chars;

verus! {

/// The assignments that the encoding of a container holds: each pair under
/// its key as it is written, in upper case after the namespace `base`.
pub open spec fn written_pairs(base: Seq<char>, entries: Seq<(Seq<char>, Seq<char>)>) -> Seq<
    (Seq<char>, Seq<char>),
> {
    entries.map_values(|entry: (Seq<char>, Seq<char>)| (base + upper_case(entry.0), entry.1))
}

/// The lines of a container that is encoded are its written assignments:
/// line `i` is the written key of pair `i`, `=`, and the value of the pair
/// as a string.
pub proof fn lemma_lines_hold_written_pairs(
    base: Seq<char>,
    entries: Seq<(Seq<char>, Seq<char>)>,
    n: nat,
)
    requires
        n <= entries.len(),
    ensures
        entries_lines(base, entries, n) matches Ok(lines) ==> lines.len() == n && forall|i: int|
            0 <= i < n ==> #[trigger] lines[i] == written_pairs(base, entries)[i].0 + seq!['=']
                + quoted(entries[i].1),
    decreases n,
{
    if n > 0 {
        lemma_lines_hold_written_pairs(base, entries, (n - 1) as nat);
    }
}

/// Whether every key of `entries` is an ASCII text without capital letters.
pub open spec fn lower_keys(entries: Seq<(Seq<char>, Seq<char>)>) -> bool {
    forall|i: int|
        0 <= i < entries.len() ==> is_ascii_chars((#[trigger] entries[i]).0) && no_capitals(
            entries[i].0,
        )
}

/// A key that was written comes back as it was: an ASCII key without capital
/// letters, written in upper case after the namespace of an ASCII prefix, is
/// decoded to itself.
pub proof fn lemma_key_round_trip(prefix: Option<Seq<char>>, key: Seq<char>)
    requires
        is_ascii_chars(key),
        no_capitals(key),
        prefix matches Some(p) ==> is_ascii_chars(p),
    ensures
        decoded_key(prefix, namespace(prefix) + upper_case(key)) == Some(key),
{
    lemma_case_of_case(key);
    lemma_lower_case_ascii(key);
    lemma_upper_case_ascii(key);
    match prefix {
        Some(p) => {
            lemma_case_of_case(p);
            lemma_upper_case_ascii(p);
            lemma_lower_case_ascii(p);
            lemma_case_of_concat(upper_case(p), upper_case(key));
            let front = lower_case(p);
            let whole = lower_case(upper_case(p) + upper_case(key));
            assert(whole == front + key);
            assert(whole.subrange(0, front.len() as int) =~= front);
            assert(whole.skip(front.len() as int) =~= key);
        },
        None => {
            assert(Seq::<char>::empty() + upper_case(key) =~= upper_case(key));
        },
    }
}

/// There and back: a container with distinct ASCII keys without capital
/// letters is what decoding gives for the assignments that its encoding
/// holds, with or without a prefix.
pub proof fn lemma_round_trip(prefix: Option<Seq<char>>, entries: Seq<(Seq<char>, Seq<char>)>)
    requires
        distinct_keys(entries),
        lower_keys(entries),
        prefix matches Some(p) ==> is_ascii_chars(p),
    ensures
        decoded(prefix, written_pairs(namespace(prefix), entries)) == entries,
    decreases entries.len(),
{
    let base = namespace(prefix);
    let written = written_pairs(base, entries);
    if entries.len() > 0 {
        let front = entries.drop_last();
        let last = entries.last();
        assert(written.drop_last() =~= written_pairs(base, front));
        assert(forall|i: int| 0 <= i < front.len() ==> front[i] == entries[i]);
        lemma_round_trip(prefix, front);
        lemma_key_round_trip(prefix, last.0);
        lemma_index_of_key(front, last.0);
        assert(index_of_key(front, last.0) is None);
        assert(front.push(last) =~= entries);
    } else {
        assert(decoded(prefix, written) =~= entries);
    }
}

/// Keys are read in lower case: every key that decoding gives is the
/// decoded key of an assignment that was read, so it is that assignment's
/// key in lower case, without the prefix.
pub proof fn lemma_decoded_keys(
    prefix: Option<Seq<char>>,
    pairs: Seq<(Seq<char>, Seq<char>)>,
    j: int,
)
    requires
        0 <= j < decoded(prefix, pairs).len(),
    ensures
        exists|i: int|
            0 <= i < pairs.len() && decoded_key(prefix, (#[trigger] pairs[i]).0) == Some(
                decoded(prefix, pairs)[j].0,
            ),
    decreases pairs.len(),
{
    if pairs.len() > 0 {
        let front = pairs.drop_last();
        let before = decoded(prefix, front);
        let last = pairs.last();
        assert(forall|i: int| 0 <= i < front.len() ==> front[i] == pairs[i]);
        match decoded_key(prefix, last.0) {
            Some(key) => {
                lemma_index_of_key(before, key);
                let after = inserted(before, key, last.1);
                if after[j].0 == key {
                    assert(decoded_key(prefix, pairs[pairs.len() - 1].0) == Some(after[j].0));
                } else {
                    assert(0 <= j < before.len() && before[j] == after[j]);
                    lemma_decoded_keys(prefix, front, j);
                    let i = choose|i: int|
                        0 <= i < front.len() && decoded_key(prefix, (#[trigger] front[i]).0)
                            == Some(before[j].0);
                    assert(decoded_key(prefix, pairs[i].0) == Some(after[j].0));
                }
            },
            None => {
                lemma_decoded_keys(prefix, front, j);
                let i = choose|i: int|
                    0 <= i < front.len() && decoded_key(prefix, (#[trigger] front[i]).0) == Some(
                        before[j].0,
                    );
                assert(decoded_key(prefix, pairs[i].0) == Some(before[j].0));
            },
        }
    }
}

/// The decoded key of an ASCII key, for an ASCII prefix, is an ASCII text
/// without capital letters.
pub proof fn lemma_decoded_key_lower(prefix: Option<Seq<char>>, key: Seq<char>)
    requires
        is_ascii_chars(key),
        prefix matches Some(p) ==> is_ascii_chars(p),
    ensures
        decoded_key(prefix, key) matches Some(k) ==> is_ascii_chars(k) && no_capitals(k),
{
    lemma_lower_case_ascii(key);
    match prefix {
        Some(p) => {
            lemma_lower_case_ascii(p);
        },
        None => {},
    }
}

/// What is decoded from lines has ASCII keys without capital letters, where
/// the prefix is ASCII too: the keys of lines are ASCII, and decoding puts
/// them in lower case.
pub proof fn lemma_lines_decoded_lower(
    prefix: Option<Seq<char>>,
    entries: Seq<(Seq<char>, Seq<char>)>,
)
    requires
        decoded_from_lines(prefix, entries),
        prefix matches Some(p) ==> is_ascii_chars(p),
    ensures
        lower_keys(entries),
        distinct_keys(entries),
{
    let pairs = choose|pairs: Seq<(Seq<char>, Seq<char>)>|
        line_keys(pairs) && #[trigger] decoded(prefix, pairs) == entries;
    lemma_decoded_distinct(prefix, pairs);
    assert forall|j: int| 0 <= j < entries.len() implies is_ascii_chars(
        (#[trigger] entries[j]).0,
    ) && no_capitals(entries[j].0) by {
        lemma_decoded_keys(prefix, pairs, j);
        let i = choose|i: int|
            0 <= i < pairs.len() && decoded_key(prefix, (#[trigger] pairs[i]).0) == Some(
                entries[j].0,
            );
        assert(is_line_key(pairs[i].0));
        assert(is_ascii_chars(pairs[i].0));
        lemma_decoded_key_lower(prefix, pairs[i].0);
    }
}

/// A key comes back from decoding and encoding as it was read exactly where
/// it had no small letter: the key that is written for the decoded key of an
/// ASCII key is that key in upper case.
pub proof fn lemma_key_written_again(key: Seq<char>)
    requires
        is_ascii_chars(key),
    ensures
        decoded_key(None, key) == Some(lower_case(key)),
        upper_case(lower_case(key)) == upper_case(key),
        upper_case(lower_case(key)) == key <==> no_smalls(key),
{
    lemma_case_of_case(key);
    lemma_upper_case_ascii(key);
}

} // verus!
