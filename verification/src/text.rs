//! Text as sequences of characters: the conversions between strings and
//! character buffers, the case mappings, and the small predicates on
//! characters that the codec needs.

use std::string::FromUtf8Error;
use vstd::prelude::*;
use vstd::utf8::{decode_utf8, is_ascii_chars, valid_utf8};

verus! {

/// `std::string::FromUtf8Error`, the failure of `String::from_utf8`.
#[verifier::external_type_specification]
#[verifier::external_body]
pub struct ExFromUtf8Error(FromUtf8Error);

/// `String::from_utf8` gives the string that the bytes encode, and fails
/// exactly where the bytes are no UTF-8.
pub assume_specification[ String::from_utf8 ](bytes: Vec<u8>) -> (r: Result<String, FromUtf8Error>)
    ensures
        r is Ok <==> valid_utf8(bytes@),
        r matches Ok(s) ==> s@ == decode_utf8(bytes@),
;

/// The upper-case form of a text, as `str::to_uppercase` gives it. The mapping
/// is that of Unicode and is not spelled out here.
pub uninterp spec fn uppercase_of(s: Seq<char>) -> Seq<char>;

/// The lower-case form of a text, as `str::to_lowercase` gives it. The mapping
/// is that of Unicode and is not spelled out here.
pub uninterp spec fn lowercase_of(s: Seq<char>) -> Seq<char>;

/// `str::to_uppercase` returns the upper-case form of its argument, a value
/// that depends on the argument's characters alone.
pub assume_specification[ str::to_uppercase ](s: &str) -> (r: String)
    ensures
        r@ == uppercase_of(s@),
;

/// `str::to_lowercase` returns the lower-case form of its argument, a value
/// that depends on the argument's characters alone.
pub assume_specification[ str::to_lowercase ](s: &str) -> (r: String)
    ensures
        r@ == lowercase_of(s@),
;

/// `String::push` appends one character to the end of the string.
pub assume_specification[ String::push ](s: &mut String, c: char)
    ensures
        final(s)@ == old(s)@.push(c),
;

/// The characters of a prefix, where one is given.
pub open spec fn prefix_chars(prefix: Option<&str>) -> Option<Seq<char>> {
    match prefix {
        Some(p) => Some(p@),
        None => None,
    }
}

/// The upper-case form of an ASCII character: a small letter becomes the
/// capital letter, any other character stays.
pub open spec fn upper_char(c: char) -> char {
    if 'a' <= c && c <= 'z' {
        ((c as u8) - 32) as char
    } else {
        c
    }
}

/// The lower-case form of an ASCII character: a capital letter becomes the
/// small letter, any other character stays.
pub open spec fn lower_char(c: char) -> char {
    if 'A' <= c && c <= 'Z' {
        ((c as u8) + 32) as char
    } else {
        c
    }
}

/// The upper-case form of a text. In an ASCII text each small letter
/// becomes the capital letter; a text with other characters has the form
/// that Unicode gives it.
pub open spec fn upper_case(s: Seq<char>) -> Seq<char> {
    if is_ascii_chars(s) {
        Seq::new(s.len(), |i: int| upper_char(s[i]))
    } else {
        uppercase_of(s)
    }
}

/// The lower-case form of a text. In an ASCII text each capital letter
/// becomes the small letter; a text with other characters has the form
/// that Unicode gives it.
pub open spec fn lower_case(s: Seq<char>) -> Seq<char> {
    if is_ascii_chars(s) {
        Seq::new(s.len(), |i: int| lower_char(s[i]))
    } else {
        lowercase_of(s)
    }
}

/// The upper-case form of `s`.
pub fn to_upper(s: &str) -> (r: Vec<char>)
    ensures
        r@ == upper_case(s@),
{
    if s.is_ascii() {
        let chars = chars_of(s);
        let mut r: Vec<char> = Vec::new();
        let mut i: usize = 0;
        while i < chars.len()
            invariant
                i <= chars.len(),
                r.len() == i,
                forall|j: int| 0 <= j < i ==> r@[j] == upper_char(chars@[j]),
            decreases chars.len() - i,
        {
            let c = chars[i];
            if 'a' <= c && c <= 'z' {
                r.push(((c as u8) - 32) as char);
            } else {
                r.push(c);
            }
            i += 1;
        }
        assert(r@ =~= upper_case(s@));
        r
    } else {
        chars_of(s.to_uppercase().as_str())
    }
}

/// The lower-case form of `s`.
pub fn to_lower(s: &str) -> (r: Vec<char>)
    ensures
        r@ == lower_case(s@),
{
    if s.is_ascii() {
        let chars = chars_of(s);
        let mut r: Vec<char> = Vec::new();
        let mut i: usize = 0;
        while i < chars.len()
            invariant
                i <= chars.len(),
                r.len() == i,
                forall|j: int| 0 <= j < i ==> r@[j] == lower_char(chars@[j]),
            decreases chars.len() - i,
        {
            let c = chars[i];
            if 'A' <= c && c <= 'Z' {
                r.push(((c as u8) + 32) as char);
            } else {
                r.push(c);
            }
            i += 1;
        }
        assert(r@ =~= lower_case(s@));
        r
    } else {
        chars_of(s.to_lowercase().as_str())
    }
}

/// The characters of `s`, in order.
pub fn chars_of(s: &str) -> (v: Vec<char>)
    ensures
        v@ == s@,
{
    let mut v: Vec<char> = Vec::new();
    for c in it: s.chars()
        invariant
            it.seq() == s@,
            v@ == s@.take(it.index() as int),
    {
        v.push(c);
    }
    v
}

/// The string that holds the characters of `v`, in order.
pub fn string_of(v: &Vec<char>) -> (s: String)
    ensures
        s@ == v@,
{
    let mut s = String::new();
    let mut i: usize = 0;
    while i < v.len()
        invariant
            i <= v.len(),
            s@ == v@.take(i as int),
        decreases v.len() - i,
    {
        s.push(v[i]);
        i += 1;
    }
    s
}

/// Appends the characters of `tail` to `out`.
pub fn push_all(out: &mut Vec<char>, tail: &Vec<char>)
    ensures
        final(out)@ == old(out)@ + tail@,
{
    let mut i: usize = 0;
    while i < tail.len()
        invariant
            i <= tail.len(),
            out@ == old(out)@ + tail@.take(i as int),
        decreases tail.len() - i,
    {
        out.push(tail[i]);
        i += 1;
    }
}

/// Whether `out` ends with the characters of `tail`.
pub fn ends_with(out: &Vec<char>, tail: &Vec<char>) -> (r: bool)
    ensures
        r == tail@.is_suffix_of(out@),
{
    if tail.len() > out.len() {
        return false;
    }
    let start: usize = out.len() - tail.len();
    let mut i: usize = 0;
    while i < tail.len()
        invariant
            start + tail.len() == out.len(),
            i <= tail.len(),
            forall|j: int| 0 <= j < i ==> out@[start + j] == tail@[j],
        decreases tail.len() - i,
    {
        if out[start + i] != tail[i] {
            assert(out@.skip(start as int)[i as int] != tail@[i as int]);
            return false;
        }
        i += 1;
    }
    assert(out@.skip(start as int) =~= tail@);
    true
}

/// Whether no character of `s` is an ASCII capital letter.
pub open spec fn no_capitals(s: Seq<char>) -> bool {
    forall|i: int| 0 <= i < s.len() ==> !('A' <= #[trigger] s[i] && s[i] <= 'Z')
}

/// Whether no character of `s` is an ASCII small letter.
pub open spec fn no_smalls(s: Seq<char>) -> bool {
    forall|i: int| 0 <= i < s.len() ==> !('a' <= #[trigger] s[i] && s[i] <= 'z')
}

/// The upper-case form of an ASCII text is an ASCII text of the same length
/// without small letters, and nothing but letters is changed.
pub proof fn lemma_upper_case_ascii(s: Seq<char>)
    requires
        is_ascii_chars(s),
    ensures
        is_ascii_chars(upper_case(s)),
        upper_case(s).len() == s.len(),
        no_smalls(upper_case(s)),
        forall|i: int| 0 <= i < s.len() ==> upper_case(s)[i] == upper_char(s[i]),
        upper_case(s) == s <==> no_smalls(s),
{
    let upper = upper_case(s);
    if no_smalls(s) {
        assert(upper =~= s);
    }
    if upper == s {
        assert forall|i: int| 0 <= i < s.len() implies !('a' <= #[trigger] s[i] && s[i] <= 'z') by {
            assert(upper[i] == upper_char(s[i]));
        }
    }
}

/// The lower-case form of an ASCII text is an ASCII text of the same length
/// without capital letters, and nothing but letters is changed.
pub proof fn lemma_lower_case_ascii(s: Seq<char>)
    requires
        is_ascii_chars(s),
    ensures
        is_ascii_chars(lower_case(s)),
        lower_case(s).len() == s.len(),
        no_capitals(lower_case(s)),
        forall|i: int| 0 <= i < s.len() ==> lower_case(s)[i] == lower_char(s[i]),
        lower_case(s) == s <==> no_capitals(s),
{
    let lower = lower_case(s);
    if no_capitals(s) {
        assert(lower =~= s);
    }
    if lower == s {
        assert forall|i: int| 0 <= i < s.len() implies !('A' <= #[trigger] s[i] && s[i] <= 'Z') by {
            assert(lower[i] == lower_char(s[i]));
        }
    }
}

/// On ASCII text, the case that was there is forgotten once the text is put
/// in one case: lower case after upper case is lower case, and upper case
/// after lower case is upper case.
pub proof fn lemma_case_of_case(s: Seq<char>)
    requires
        is_ascii_chars(s),
    ensures
        lower_case(upper_case(s)) == lower_case(s),
        upper_case(lower_case(s)) == upper_case(s),
{
    lemma_upper_case_ascii(s);
    lemma_lower_case_ascii(s);
    lemma_lower_case_ascii(upper_case(s));
    lemma_upper_case_ascii(lower_case(s));
    assert(lower_case(upper_case(s)) =~= lower_case(s));
    assert(upper_case(lower_case(s)) =~= upper_case(s));
}

/// On ASCII text, the case of two texts one after the other is the case of
/// each, one after the other.
pub proof fn lemma_case_of_concat(a: Seq<char>, b: Seq<char>)
    requires
        is_ascii_chars(a),
        is_ascii_chars(b),
    ensures
        is_ascii_chars(a + b),
        upper_case(a + b) == upper_case(a) + upper_case(b),
        lower_case(a + b) == lower_case(a) + lower_case(b),
{
    assert(is_ascii_chars(a + b));
    lemma_upper_case_ascii(a);
    lemma_upper_case_ascii(b);
    lemma_upper_case_ascii(a + b);
    lemma_lower_case_ascii(a);
    lemma_lower_case_ascii(b);
    lemma_lower_case_ascii(a + b);
    assert(upper_case(a + b) =~= upper_case(a) + upper_case(b));
    assert(lower_case(a + b) =~= lower_case(a) + lower_case(b));
}

} // verus!
