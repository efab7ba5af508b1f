//! The typed tree that the encoder walks, and what its encoding is.
//!
//! A [`StructuredValue`] stands for a [`Tree`], its view. The encoding of a
//! tree is stated here without any traversal state: each field of a compound
//! contributes lines, a line is `KEY=TEXT`, and the key of a nested field is
//! the path of upper-case names that leads to it, joined by `_`.

use crate::decimal::{decimal_int, lemma_decimal_tidy};
use crate::error::Error;
use crate::text::{lemma_upper_case_ascii, upper_case};
use vstd::prelude::*;
use vstd::utf8::{decode_utf8, is_ascii_chars, valid_utf8};

verus! {

/// A typed value: a scalar, an optional, a sequence, a compound of named
/// fields, or a variant of an enum.
#[derive(Debug, PartialEq, Eq)]
pub enum StructuredValue {
    /// A boolean.
    Bool(bool),
    /// A signed integer.
    Int(i64),
    /// An unsigned integer.
    UInt(u64),
    /// A floating-point number, held as its decimal text.
    Float(String),
    /// A string.
    Str(String),
    /// Bytes that stand for UTF-8 text.
    Bytes(Vec<u8>),
    /// A value that may be absent.
    Optional(Option<Box<StructuredValue>>),
    /// An ordered list. Only a list of scalars can be encoded.
    Sequence(Vec<StructuredValue>),
    /// Named fields, in order.
    Compound(Vec<(String, StructuredValue)>),
    /// Positional fields without names. They cannot be encoded.
    Tuple(Vec<StructuredValue>),
    /// A variant of an enum, by name, with what it carries.
    EnumVariant(String, Option<Box<StructuredValue>>),
}

/// The tree that a [`StructuredValue`] stands for: the same shapes, with
/// texts for strings and with integers of any size.
pub enum Tree {
    /// A boolean.
    Bool(bool),
    /// An integer.
    Int(int),
    /// A floating-point number, as its decimal text.
    Float(Seq<char>),
    /// A string.
    Str(Seq<char>),
    /// Bytes that stand for UTF-8 text.
    Bytes(Seq<u8>),
    /// A value that may be absent.
    Optional(Option<Box<Tree>>),
    /// An ordered list.
    Sequence(Seq<Tree>),
    /// Named fields, in order.
    Compound(Seq<(Seq<char>, Tree)>),
    /// Positional fields without names.
    Tuple(Seq<Tree>),
    /// A variant of an enum, by name, with what it carries.
    EnumVariant(Seq<char>, Option<Box<Tree>>),
}

/// The tree of a value.
pub open spec fn tree_of(v: StructuredValue) -> Tree
    decreases v,
{
    match v {
        StructuredValue::Bool(b) => Tree::Bool(b),
        StructuredValue::Int(i) => Tree::Int(i as int),
        StructuredValue::UInt(u) => Tree::Int(u as int),
        StructuredValue::Float(text) => Tree::Float(text@),
        StructuredValue::Str(s) => Tree::Str(s@),
        StructuredValue::Bytes(bytes) => Tree::Bytes(bytes@),
        StructuredValue::Optional(None) => Tree::Optional(None),
        StructuredValue::Optional(Some(inner)) => Tree::Optional(Some(Box::new(tree_of(*inner)))),
        StructuredValue::Sequence(items) => Tree::Sequence(
            Seq::new(
                items.len() as nat,
                |i: int|
                    if 0 <= i < items.len() {
                        tree_of(items[i])
                    } else {
                        Tree::Optional(None)
                    },
            ),
        ),
        StructuredValue::Compound(fields) => Tree::Compound(
            Seq::new(
                fields.len() as nat,
                |i: int|
                    if 0 <= i < fields.len() {
                        (fields[i].0@, tree_of(fields[i].1))
                    } else {
                        (Seq::empty(), Tree::Optional(None))
                    },
            ),
        ),
        StructuredValue::Tuple(items) => Tree::Tuple(
            Seq::new(
                items.len() as nat,
                |i: int|
                    if 0 <= i < items.len() {
                        tree_of(items[i])
                    } else {
                        Tree::Optional(None)
                    },
            ),
        ),
        StructuredValue::EnumVariant(name, None) => Tree::EnumVariant(name@, None),
        StructuredValue::EnumVariant(name, Some(payload)) => Tree::EnumVariant(
            name@,
            Some(Box::new(tree_of(*payload))),
        ),
    }
}

impl View for StructuredValue {
    type V = Tree;

    open spec fn view(&self) -> Tree {
        tree_of(*self)
    }
}

/// What a value contributes where a value is expected: a text for the right
/// of `=`, or whole lines of its own.
pub enum Rendered {
    /// The text of a scalar, an optional or a sequence.
    Text(Seq<char>),
    /// The lines of a compound, one for each field that is no compound.
    Lines(Seq<Seq<char>>),
}

/// The text of a boolean.
pub open spec fn bool_text(b: bool) -> Seq<char> {
    if b {
        "true"@
    } else {
        "false"@
    }
}

/// A string as a value: between double quotes, as it is; nothing at all for
/// the empty string.
pub open spec fn quoted(s: Seq<char>) -> Seq<char> {
    if s.len() == 0 {
        s
    } else {
        seq!['"'] + s + seq!['"']
    }
}

/// Whether `c` may stand in the decimal text of a number: an ASCII letter or
/// digit, a sign or a point.
pub open spec fn is_numeral_char(c: char) -> bool {
    ('0' <= c && c <= '9') || ('a' <= c && c <= 'z') || ('A' <= c && c <= 'Z') || c == '+' || c
        == '-' || c == '.'
}

/// Whether `s` can be the decimal text of a number: not empty, and made of
/// letters, digits, signs and points.
pub open spec fn is_numeral(s: Seq<char>) -> bool {
    s.len() > 0 && forall|i: int| 0 <= i < s.len() ==> is_numeral_char(#[trigger] s[i])
}

/// Whether `c` may not stand in a key: a space, `#` or a quote.
pub open spec fn is_forbidden(c: char) -> bool {
    c == ' ' || c == '#' || c == '"' || c == '\''
}

/// Whether a key holds a character that no key may hold.
pub open spec fn has_forbidden(key: Seq<char>) -> bool {
    exists|i: int| 0 <= i < key.len() && is_forbidden(#[trigger] key[i])
}

/// The key path `path` with one more segment: segments are joined by `_`.
pub open spec fn extended(path: Seq<char>, segment: Seq<char>) -> Seq<char> {
    if path.len() == 0 {
        segment
    } else {
        path + seq!['_'] + segment
    }
}

/// The opening of an assignment: the namespace, the key path and `=`.
pub open spec fn stub(base: Seq<char>, path: Seq<char>) -> Seq<char> {
    base + path + seq!['=']
}

/// Lines as one text: a line break between two lines, none at the end.
pub open spec fn joined(lines: Seq<Seq<char>>) -> Seq<char>
    decreases lines.len(),
{
    if lines.len() == 0 {
        Seq::empty()
    } else if lines.len() == 1 {
        lines[0]
    } else {
        joined(lines.drop_last()) + seq!['\n'] + lines.last()
    }
}

/// What the value `v` contributes under the key path `path` in the namespace
/// `base`; `in_seq` says whether `v` is an element of a sequence.
///
/// A sequence or a compound inside a sequence is refused, and so are
/// positional fields anywhere. A variant that carries a value stands for that
/// value inside a sequence, and for a compound of one field, named as the
/// variant, elsewhere.
pub open spec fn rendered(base: Seq<char>, path: Seq<char>, in_seq: bool, v: Tree) -> Result<
    Rendered,
    Error,
>
    decreases v, 1nat, 0nat,
{
    match v {
        Tree::Bool(b) => Ok(Rendered::Text(bool_text(b))),
        Tree::Int(i) => Ok(Rendered::Text(decimal_int(i))),
        Tree::Float(t) => if is_numeral(t) {
            Ok(Rendered::Text(t))
        } else {
            Err(Error::Syntax)
        },
        Tree::Str(s) => Ok(Rendered::Text(quoted(s))),
        Tree::Bytes(b) => if valid_utf8(b) {
            Ok(Rendered::Text(quoted(decode_utf8(b))))
        } else {
            Err(Error::Syntax)
        },
        Tree::Optional(None) => Ok(Rendered::Text(Seq::empty())),
        Tree::Optional(Some(inner)) => rendered(base, path, in_seq, *inner),
        Tree::EnumVariant(name, None) => Ok(Rendered::Text(quoted(name))),
        Tree::EnumVariant(name, Some(payload)) => if in_seq {
            rendered(base, path, true, *payload)
        } else {
            match field_lines(base, path, name, *payload) {
                Ok(lines) => Ok(Rendered::Lines(lines)),
                Err(e) => Err(e),
            }
        },
        Tree::Sequence(items) => if in_seq {
            Err(Error::UnsupportedStructureInSeq)
        } else {
            match elements_text(base, path, v, items.len()) {
                Ok(text) => Ok(Rendered::Text(text)),
                Err(e) => Err(e),
            }
        },
        Tree::Tuple(_) => Err(Error::UnsupportedTupleStruct),
        Tree::Compound(fields) => if in_seq {
            Err(Error::UnsupportedStructureInSeq)
        } else {
            match lines_upto(base, path, v, fields.len()) {
                Ok(lines) => Ok(Rendered::Lines(lines)),
                Err(e) => Err(e),
            }
        },
    }
}

/// The lines of one field, named `name`, of a compound at `path`. The key is
/// `path` extended by the upper-case name. A key with a forbidden character
/// is refused before the value is looked at. A value that is a compound with
/// fields gives the lines of those fields; any other value gives one line.
pub open spec fn field_lines(
    base: Seq<char>,
    path: Seq<char>,
    name: Seq<char>,
    value: Tree,
) -> Result<Seq<Seq<char>>, Error>
    decreases value, 2nat, 0nat,
{
    let key = extended(path, upper_case(name));
    if has_forbidden(base + key) {
        Err(Error::Syntax)
    } else {
        match rendered(base, key, false, value) {
            Err(e) => Err(e),
            Ok(Rendered::Text(text)) => Ok(seq![stub(base, key) + text]),
            Ok(Rendered::Lines(lines)) => if lines.len() == 0 {
                Ok(seq![stub(base, key)])
            } else {
                Ok(lines)
            },
        }
    }
}

/// The lines of the first `n` fields of the compound `v`, in order; the
/// first field that is refused decides the error.
pub open spec fn lines_upto(base: Seq<char>, path: Seq<char>, v: Tree, n: nat) -> Result<
    Seq<Seq<char>>,
    Error,
>
    decreases v, 0nat, n,
{
    match v {
        Tree::Compound(fields) => if 0 < n <= fields.len() {
            match lines_upto(base, path, v, (n - 1) as nat) {
                Err(e) => Err(e),
                Ok(before) => match field_lines(base, path, fields[n - 1].0, fields[n - 1].1) {
                    Err(e) => Err(e),
                    Ok(lines) => Ok(before + lines),
                },
            }
        } else {
            Ok(Seq::empty())
        },
        _ => Ok(Seq::empty()),
    }
}

/// The texts of the first `n` elements of the sequence `v`, with a comma
/// between two of them; the first element that is refused decides the error.
pub open spec fn elements_text(
    base: Seq<char>,
    path: Seq<char>,
    v: Tree,
    n: nat,
) -> Result<Seq<char>, Error>
    decreases v, 0nat, n,
{
    match v {
        Tree::Sequence(items) => if 0 < n <= items.len() {
            match elements_text(base, path, v, (n - 1) as nat) {
                Err(e) => Err(e),
                Ok(before) => match rendered(base, path, true, items[n - 1]) {
                    Err(e) => Err(e),
                    Ok(Rendered::Lines(_)) => Err(Error::UnsupportedStructureInSeq),
                    Ok(Rendered::Text(text)) => if n == 1 {
                        Ok(text)
                    } else {
                        Ok(before + seq![','] + text)
                    },
                },
            }
        } else {
            Ok(Seq::empty())
        },
        _ => Ok(Seq::empty()),
    }
}

/// The namespace that a prefix stands for: its upper-case form, and nothing
/// where no prefix is given.
pub open spec fn namespace(prefix: Option<Seq<char>>) -> Seq<char> {
    match prefix {
        Some(p) => upper_case(p),
        None => Seq::empty(),
    }
}

/// The encoding of `v` in the namespace `base`: the text of a value that is
/// no compound, and the lines of a compound, joined.
pub open spec fn encoding(base: Seq<char>, v: Tree) -> Result<Seq<char>, Error> {
    match rendered(base, Seq::empty(), false, v) {
        Err(e) => Err(e),
        Ok(Rendered::Text(text)) => Ok(text),
        Ok(Rendered::Lines(lines)) => Ok(joined(lines)),
    }
}

/// Whether a text does not end with a line break.
pub open spec fn tidy(text: Seq<char>) -> bool {
    text.len() == 0 || text.last() != '\n'
}

/// Whether every line holds a character at least and does not end with a
/// line break.
pub open spec fn tidy_lines(lines: Seq<Seq<char>>) -> bool {
    forall|i: int| 0 <= i < lines.len() ==> (#[trigger] lines[i]).len() > 0 && lines[i].last() != '\n'
}

/// Lines that are joined keep the last character of the last line.
pub proof fn lemma_joined_tidy(lines: Seq<Seq<char>>)
    requires
        lines.len() >= 1,
        tidy_lines(lines),
    ensures
        joined(lines).len() > 0,
        joined(lines).last() == lines.last().last(),
        joined(lines).last() != '\n',
{
    assert(lines[lines.len() - 1].len() > 0);
    if lines.len() > 1 {
        assert(joined(lines) == joined(lines.drop_last()) + seq!['\n'] + lines.last());
    }
}

/// Joining two lists of lines, one after the other, puts a line break
/// between what each gives alone.
pub proof fn lemma_joined_concat(a: Seq<Seq<char>>, b: Seq<Seq<char>>)
    requires
        a.len() >= 1,
        b.len() >= 1,
    ensures
        joined(a + b) == joined(a) + seq!['\n'] + joined(b),
    decreases b.len(),
{
    let all = a + b;
    assert(all.last() == b.last());
    if b.len() == 1 {
        assert(all.drop_last() =~= a);
        assert(joined(b) == b[0]);
    } else {
        assert(all.drop_last() =~= a + b.drop_last());
        lemma_joined_concat(a, b.drop_last());
        assert(joined(all) == joined(a + b.drop_last()) + seq!['\n'] + b.last());
        assert(joined(b) == joined(b.drop_last()) + seq!['\n'] + b.last());
        assert(joined(all) =~= joined(a) + seq!['\n'] + joined(b));
    }
}

/// What a value contributes never ends with a line break, and an element of
/// a sequence contributes a text, never lines.
pub proof fn lemma_rendered_tidy(base: Seq<char>, path: Seq<char>, in_seq: bool, v: Tree)
    ensures
        match rendered(base, path, in_seq, v) {
            Ok(Rendered::Text(text)) => tidy(text),
            Ok(Rendered::Lines(lines)) => !in_seq && tidy_lines(lines),
            Err(_) => true,
        },
    decreases v, 1nat, 0nat,
{
    match v {
        Tree::Bool(b) => {
            reveal_strlit("true");
            reveal_strlit("false");
        },
        Tree::Int(i) => {
            lemma_decimal_tidy(i);
        },
        Tree::Float(t) => {
            if is_numeral(t) {
                assert(is_numeral_char(t[t.len() - 1]));
            }
        },
        Tree::Str(s) => {},
        Tree::Bytes(b) => {},
        Tree::Optional(None) => {},
        Tree::Optional(Some(inner)) => {
            lemma_rendered_tidy(base, path, in_seq, *inner);
        },
        Tree::EnumVariant(name, None) => {},
        Tree::EnumVariant(name, Some(payload)) => {
            if in_seq {
                lemma_rendered_tidy(base, path, true, *payload);
            } else {
                lemma_field_lines_tidy(base, path, name, *payload);
            }
        },
        Tree::Sequence(items) => {
            if !in_seq {
                lemma_elements_text_tidy(base, path, v, items.len());
            }
        },
        Tree::Tuple(_) => {},
        Tree::Compound(fields) => {
            if !in_seq {
                lemma_lines_upto_tidy(base, path, v, fields.len());
            }
        },
    }
}

/// A field contributes one line at least, and none of its lines ends with a
/// line break.
pub proof fn lemma_field_lines_tidy(
    base: Seq<char>,
    path: Seq<char>,
    name: Seq<char>,
    value: Tree,
)
    ensures
        field_lines(base, path, name, value) matches Ok(lines) ==> lines.len() >= 1 && tidy_lines(
            lines,
        ),
    decreases value, 2nat, 0nat,
{
    let key = extended(path, upper_case(name));
    if !has_forbidden(base + key) {
        lemma_rendered_tidy(base, key, false, value);
    }
}

/// The fields of a compound contribute lines that do not end with a line
/// break, and one line at least where there is a field.
pub proof fn lemma_lines_upto_tidy(base: Seq<char>, path: Seq<char>, v: Tree, n: nat)
    ensures
        lines_upto(base, path, v, n) matches Ok(lines) ==> tidy_lines(lines) && (v matches Tree::Compound(
            fields,
        ) && 0 < n <= fields.len() ==> lines.len() >= 1),
    decreases v, 0nat, n,
{
    match v {
        Tree::Compound(fields) => {
            if 0 < n <= fields.len() {
                lemma_lines_upto_tidy(base, path, v, (n - 1) as nat);
                lemma_field_lines_tidy(base, path, fields[n - 1].0, fields[n - 1].1);
            }
        },
        _ => {},
    }
}

/// The text of a sequence does not end with a line break.
pub proof fn lemma_elements_text_tidy(base: Seq<char>, path: Seq<char>, v: Tree, n: nat)
    ensures
        elements_text(base, path, v, n) matches Ok(text) ==> tidy(text),
    decreases v, 0nat, n,
{
    match v {
        Tree::Sequence(items) => {
            if 0 < n <= items.len() {
                lemma_elements_text_tidy(base, path, v, (n - 1) as nat);
                lemma_rendered_tidy(base, path, true, items[n - 1]);
            }
        },
        _ => {},
    }
}

/// Once a field is refused, the compound is refused with the same error,
/// whatever its later fields are.
pub proof fn lemma_lines_upto_refused(
    base: Seq<char>,
    path: Seq<char>,
    v: Tree,
    k: nat,
    n: nat,
)
    requires
        v matches Tree::Compound(fields) && k <= n <= fields.len(),
        lines_upto(base, path, v, k) is Err,
    ensures
        lines_upto(base, path, v, n) == lines_upto(base, path, v, k),
    decreases n - k,
{
    if k < n {
        lemma_lines_upto_refused(base, path, v, k, (n - 1) as nat);
    }
}

/// Once an element is refused, the sequence is refused with the same error,
/// whatever its later elements are.
pub proof fn lemma_elements_text_refused(
    base: Seq<char>,
    path: Seq<char>,
    v: Tree,
    k: nat,
    n: nat,
)
    requires
        v matches Tree::Sequence(items) && k <= n <= items.len(),
        elements_text(base, path, v, k) is Err,
    ensures
        elements_text(base, path, v, n) == elements_text(base, path, v, k),
    decreases n - k,
{
    if k < n {
        lemma_elements_text_refused(base, path, v, k, (n - 1) as nat);
    }
}

/// Inside a sequence, a sequence is refused and so is a compound.
pub proof fn lemma_structure_in_sequence(base: Seq<char>, path: Seq<char>, v: Tree)
    requires
        v is Sequence || v is Compound,
    ensures
        rendered(base, path, true, v) == Err::<Rendered, Error>(Error::UnsupportedStructureInSeq),
{
}

/// Positional fields are refused wherever they stand.
pub proof fn lemma_tuple_refused(base: Seq<char>, path: Seq<char>, in_seq: bool, v: Tree)
    requires
        v is Tuple,
    ensures
        rendered(base, path, in_seq, v) == Err::<Rendered, Error>(Error::UnsupportedTupleStruct),
{
}

/// The elements of a sequence that are all accepted have a text.
pub proof fn lemma_elements_accepted(base: Seq<char>, path: Seq<char>, v: Tree, n: nat)
    requires
        v matches Tree::Sequence(items) && n <= items.len() && forall|j: int|
            0 <= j < n ==> rendered(base, path, true, #[trigger] items[j]) is Ok,
    ensures
        elements_text(base, path, v, n) is Ok,
    decreases n,
{
    if n > 0 {
        let items = v->Sequence_0;
        lemma_elements_accepted(base, path, v, (n - 1) as nat);
        assert(rendered(base, path, true, items[n - 1]) is Ok);
        lemma_rendered_tidy(base, path, true, items[n - 1]);
    }
}

/// The first element that is refused decides: a sequence outside any
/// sequence, whose element `k` is refused while every element before it is
/// accepted, is refused with the error of element `k`.
pub proof fn lemma_sequence_refused(base: Seq<char>, path: Seq<char>, v: Tree, k: int)
    requires
        v matches Tree::Sequence(items) && 0 <= k < items.len() && rendered(
            base,
            path,
            true,
            items[k],
        ) is Err && forall|j: int|
            0 <= j < k ==> rendered(base, path, true, #[trigger] items[j]) is Ok,
    ensures
        rendered(base, path, false, v) matches Err(e) && rendered(
            base,
            path,
            true,
            v->Sequence_0[k],
        ) == Err::<Rendered, Error>(e),
{
    let items = v->Sequence_0;
    lemma_elements_accepted(base, path, v, k as nat);
    assert(elements_text(base, path, v, (k + 1) as nat) is Err);
    lemma_elements_text_refused(base, path, v, (k + 1) as nat, items.len());
}

/// A sequence that holds a sequence or a compound, after elements that are
/// accepted, is refused with [`Error::UnsupportedStructureInSeq`].
pub proof fn lemma_sequence_with_structure(
    base: Seq<char>,
    path: Seq<char>,
    in_seq: bool,
    v: Tree,
    k: int,
)
    requires
        v matches Tree::Sequence(items) && 0 <= k < items.len() && (items[k] is Sequence
            || items[k] is Compound) && forall|j: int|
            0 <= j < k ==> rendered(base, path, true, #[trigger] items[j]) is Ok,
    ensures
        rendered(base, path, in_seq, v) == Err::<Rendered, Error>(Error::UnsupportedStructureInSeq),
{
    if !in_seq {
        lemma_structure_in_sequence(base, path, v->Sequence_0[k]);
        lemma_sequence_refused(base, path, v, k);
    }
}

/// The fields of a compound that are all accepted have lines.
pub proof fn lemma_fields_accepted(base: Seq<char>, path: Seq<char>, v: Tree, n: nat)
    requires
        v matches Tree::Compound(fields) && n <= fields.len() && forall|j: int|
            0 <= j < n ==> field_lines(base, path, (#[trigger] fields[j]).0, fields[j].1) is Ok,
    ensures
        lines_upto(base, path, v, n) is Ok,
    decreases n,
{
    if n > 0 {
        let fields = v->Compound_0;
        lemma_fields_accepted(base, path, v, (n - 1) as nat);
        assert(field_lines(base, path, fields[n - 1].0, fields[n - 1].1) is Ok);
    }
}

/// The first field that is refused decides: a compound outside any sequence,
/// whose field `k` is refused while every field before it is accepted, is
/// refused with the error of field `k`.
pub proof fn lemma_compound_refused(base: Seq<char>, path: Seq<char>, v: Tree, k: int)
    requires
        v matches Tree::Compound(fields) && 0 <= k < fields.len() && field_lines(
            base,
            path,
            fields[k].0,
            fields[k].1,
        ) is Err && forall|j: int|
            0 <= j < k ==> field_lines(base, path, (#[trigger] fields[j]).0, fields[j].1) is Ok,
    ensures
        rendered(base, path, false, v) matches Err(e) && field_lines(
            base,
            path,
            v->Compound_0[k].0,
            v->Compound_0[k].1,
        ) == Err::<Seq<Seq<char>>, Error>(e),
{
    let fields = v->Compound_0;
    lemma_fields_accepted(base, path, v, k as nat);
    assert(lines_upto(base, path, v, (k + 1) as nat) is Err);
    lemma_lines_upto_refused(base, path, v, (k + 1) as nat, fields.len());
}

/// A field whose key, as it would be written, holds a forbidden character is
/// refused with [`Error::Syntax`], whatever its value is.
pub proof fn lemma_forbidden_key_refused(
    base: Seq<char>,
    path: Seq<char>,
    name: Seq<char>,
    value: Tree,
)
    requires
        has_forbidden(base + extended(path, upper_case(name))),
    ensures
        field_lines(base, path, name, value) == Err::<Seq<Seq<char>>, Error>(Error::Syntax),
{
}

/// A field whose ASCII name holds a space, `#` or a quote is refused with
/// [`Error::Syntax`], whatever its value is.
pub proof fn lemma_forbidden_name_refused(
    base: Seq<char>,
    path: Seq<char>,
    name: Seq<char>,
    value: Tree,
)
    requires
        is_ascii_chars(name),
        has_forbidden(name),
    ensures
        field_lines(base, path, name, value) == Err::<Seq<Seq<char>>, Error>(Error::Syntax),
{
    lemma_upper_case_ascii(name);
    let i = choose|i: int| 0 <= i < name.len() && is_forbidden(#[trigger] name[i]);
    let upper = upper_case(name);
    assert(upper[i] == name[i]);
    let key = extended(path, upper);
    let full = base + key;
    let at = full.len() - upper.len() + i;
    assert(full[at] == upper[i]);
    assert(is_forbidden(full[at]));
}

/// The text that the value of a field has, where it has one.
pub open spec fn field_text(base: Seq<char>, path: Seq<char>, field: (Seq<char>, Tree)) -> Option<
    Seq<char>,
> {
    match rendered(base, extended(path, upper_case(field.0)), false, field.1) {
        Ok(Rendered::Text(text)) => Some(text),
        _ => None,
    }
}

/// A field that is no compound gives exactly one line: where every one of
/// the first `n` fields of a compound has a key without forbidden characters
/// and a value with a text, the compound has `n` lines, and line `j` is the
/// key of field `j`, `=`, and the text of its value.
pub proof fn lemma_one_line_for_each_field(
    base: Seq<char>,
    path: Seq<char>,
    v: Tree,
    n: nat,
)
    requires
        v matches Tree::Compound(fields) && n <= fields.len() && forall|j: int|
            0 <= j < n ==> !has_forbidden(base + extended(path, upper_case((#[trigger] fields[j]).0)))
                && field_text(base, path, fields[j]) is Some,
    ensures
        lines_upto(base, path, v, n) matches Ok(lines) && lines.len() == n && forall|j: int|
            0 <= j < n ==> #[trigger] lines[j] == stub(
                base,
                extended(path, upper_case(v->Compound_0[j].0)),
            ) + field_text(base, path, v->Compound_0[j])->Some_0,
    decreases n,
{
    if n > 0 {
        let fields = v->Compound_0;
        lemma_one_line_for_each_field(base, path, v, (n - 1) as nat);
        let field = fields[n - 1];
        assert(field_text(base, path, field) is Some);
        let before = lines_upto(base, path, v, (n - 1) as nat)->Ok_0;
        let line = stub(base, extended(path, upper_case(field.0))) + field_text(
            base,
            path,
            field,
        )->Some_0;
        assert(field_lines(base, path, field.0, field.1) == Ok::<Seq<Seq<char>>, Error>(
            seq![line],
        ));
        let lines = before + seq![line];
        assert(lines[n - 1] == line);
        assert forall|j: int| 0 <= j < n - 1 implies #[trigger] lines[j] == before[j] by {}
    }
}

} // verus!
