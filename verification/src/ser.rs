//! The encoder: a serializer that walks a [`StructuredValue`] once and writes
//! flat `KEY=VALUE` text.
//!
//! The serializer writes the key of a field before it knows what the field
//! holds. Where the field turns out to be a compound, the first key of that
//! compound takes back the opening that was written for the field. What comes
//! out is the encoding that [`encoding`] states without any of this.

use crate::decimal::{decimal_int, decimal_nat, push_decimal_i64, push_decimal_u64};
use crate::error::Error;
use crate::structured::{
    bool_text, elements_text, encoding, extended, field_lines, has_forbidden, is_forbidden,
    is_numeral, is_numeral_char, joined, lemma_elements_text_refused, lemma_elements_text_tidy,
    lemma_field_lines_tidy, lemma_joined_concat, lemma_joined_tidy, lemma_lines_upto_refused,
    lemma_lines_upto_tidy, lemma_rendered_tidy, lines_upto,
    namespace, quoted, rendered, stub, tidy, Rendered, StructuredValue, Tree,
};
use crate::text::{
    chars_of, ends_with, prefix_chars, push_all, string_of, to_upper, upper_case,
};
use crate::value::{entries_tree, Value};
use vstd::prelude::*;
use vstd::utf8::{decode_utf8, encode_utf8, valid_utf8};

verus! {

/// What a [`Serializer`] holds while it walks a value.
#[verifier::ext_equal]
pub struct EncodingState {
    /// The text written so far.
    pub output: Seq<char>,
    /// The namespace: it opens every key and never changes.
    pub base_prefix: Seq<char>,
    /// The key path of the place that is being written.
    pub prefix: Seq<char>,
    /// Whether the next string is a key.
    pub key: bool,
    /// Whether the place that is being written is inside a sequence.
    pub sequence: bool,
    /// The key path to come back to when the field that is open is done.
    pub prefix_before: Seq<char>,
}

/// `out` without `tail` at its end, where it ends so; else `out`.
pub open spec fn retracted(out: Seq<char>, tail: Seq<char>) -> Seq<char> {
    if tail.is_suffix_of(out) {
        out.subrange(0, out.len() - tail.len())
    } else {
        out
    }
}

/// `text` without the line breaks at its end.
pub open spec fn without_trailing_breaks(text: Seq<char>) -> Seq<char>
    decreases text.len(),
{
    if text.len() > 0 && text.last() == '\n' {
        without_trailing_breaks(text.drop_last())
    } else {
        text
    }
}

/// `out` without the comma at its end, where `pop` holds and it ends so.
pub open spec fn without_last_comma(out: Seq<char>, pop: bool) -> Seq<char> {
    if pop && out.len() > 0 && out.last() == ',' {
        out.drop_last()
    } else {
        out
    }
}

impl EncodingState {
    /// The state before anything is written, in the namespace `base`.
    pub open spec fn fresh(base: Seq<char>) -> EncodingState {
        EncodingState {
            output: Seq::empty(),
            base_prefix: base,
            prefix: Seq::empty(),
            key: false,
            sequence: false,
            prefix_before: Seq::empty(),
        }
    }

    /// Whether a value can be written here: no key is awaited, the output does
    /// not end with a line break and, outside a sequence, not with a comma.
    pub open spec fn ready(self) -> bool {
        &&& !self.key
        &&& tidy(self.output)
        &&& !self.sequence ==> !(self.output.len() > 0 && self.output.last() == ',')
    }

    /// This state with `text` after its output.
    pub open spec fn wrote(self, text: Seq<char>) -> EncodingState {
        EncodingState { output: self.output + text, ..self }
    }

    /// What writing the string `v` in this state comes to. Where a key is
    /// awaited, `v` extends the key path in upper case; the key is refused
    /// if it holds a forbidden character after the namespace, and written
    /// after the output if it holds none. Elsewhere `v` is written as a
    /// value.
    pub open spec fn wrote_str(self, v: Seq<char>, r: Result<(), Error>, after: EncodingState) -> bool {
        if self.key {
            let path = extended(self.prefix, upper_case(v));
            let full = self.base_prefix + path;
            if has_forbidden(full) {
                r == Err::<(), Error>(Error::Syntax) && after == (EncodingState {
                    prefix: path,
                    ..self
                })
            } else {
                r is Ok && after == (EncodingState {
                    prefix: path,
                    output: self.output + full,
                    ..self
                })
            }
        } else {
            r is Ok && after == self.wrote(quoted(v))
        }
    }

    /// The output once a value that contributes `shape` has been written. A
    /// text goes after the output. Lines go after the output too, which
    /// first loses the opening of the field that the lines stand for; no
    /// lines leave the output as it is.
    pub open spec fn placed_output(self, shape: Rendered) -> Seq<char> {
        match shape {
            Rendered::Text(text) => self.output + text,
            Rendered::Lines(lines) => if lines.len() == 0 {
                self.output
            } else {
                retracted(self.output, stub(self.base_prefix, self.prefix)) + joined(lines)
            },
        }
    }

    /// Whether `after` is this state once a value that contributes `shape`
    /// has been written: the same place, with the output that the value
    /// leaves.
    pub open spec fn placed(self, shape: Rendered, after: EncodingState) -> bool {
        &&& self.same_place(after)
        &&& after.output == self.placed_output(shape)
    }

    /// What writing the value `v` in this state comes to: the error that
    /// refuses `v`, or the state `after` with what `v` contributes.
    pub open spec fn encoded(self, v: Tree, r: Result<(), Error>, after: EncodingState) -> bool {
        match rendered(self.base_prefix, self.prefix, self.sequence, v) {
            Err(e) => r == Err::<(), Error>(e),
            Ok(shape) => r is Ok && self.placed(shape, after),
        }
    }

    /// Whether `after` is this state but for its output and the key path that
    /// it keeps to come back to.
    pub open spec fn same_place(self, after: EncodingState) -> bool {
        &&& after.base_prefix == self.base_prefix
        &&& after.prefix == self.prefix
        &&& after.key == self.key
        &&& after.sequence == self.sequence
    }
}

/// Taking back what was just written gives what was there before.
pub proof fn lemma_retracted_written(front: Seq<char>, tail: Seq<char>)
    ensures
        retracted(front + tail, tail) == front,
{
    let out = front + tail;
    assert(out.subrange(out.len() - tail.len(), out.len() as int) =~= tail);
    assert(out.subrange(0, out.len() - tail.len()) =~= front);
}

/// Nothing is taken back from an output that ends otherwise than `tail`.
pub proof fn lemma_retracted_other(out: Seq<char>, tail: Seq<char>)
    requires
        tail.len() > 0,
        out.len() == 0 || out.last() != tail.last(),
    ensures
        retracted(out, tail) == out,
{
    if tail.is_suffix_of(out) {
        let cut = out.subrange(out.len() - tail.len(), out.len() as int);
        assert(cut[tail.len() - 1] == out[out.len() - 1]);
    }
}

/// A text that does not end with a line break has none to lose.
pub proof fn lemma_tidy_unchanged(text: Seq<char>)
    requires
        tidy(text),
    ensures
        without_trailing_breaks(text) == text,
{
}

/// One line break after a text that ends with none is all that is lost.
pub proof fn lemma_one_break(text: Seq<char>)
    requires
        tidy(text),
    ensures
        without_trailing_breaks(text.push('\n')) == text,
{
    let longer = text.push('\n');
    assert(longer.drop_last() =~= text);
    assert(without_trailing_breaks(longer) == without_trailing_breaks(longer.drop_last()));
}

/// A serializer to transform structured values into environment variables.
pub struct Serializer {
    output: Vec<char>,
    base_prefix: Vec<char>,
    prefix: Vec<char>,
    key: bool,
    sequence: bool,
    prefix_before: Vec<char>,
}

impl View for Serializer {
    type V = EncodingState;

    closed spec fn view(&self) -> EncodingState {
        EncodingState {
            output: self.output@,
            base_prefix: self.base_prefix@,
            prefix: self.prefix@,
            key: self.key,
            sequence: self.sequence,
            prefix_before: self.prefix_before@,
        }
    }
}

/// A copy of `v`.
fn copy_of(v: &Vec<char>) -> (r: Vec<char>)
    ensures
        r@ == v@,
{
    let mut r: Vec<char> = Vec::new();
    push_all(&mut r, v);
    r
}

/// Whether `key` holds a character that no key may hold.
fn holds_forbidden(key: &Vec<char>) -> (r: bool)
    ensures
        r == has_forbidden(key@),
{
    let mut i: usize = 0;
    while i < key.len()
        invariant
            i <= key.len(),
            forall|j: int| 0 <= j < i ==> !is_forbidden(#[trigger] key@[j]),
        decreases key.len() - i,
    {
        let c = key[i];
        if c == ' ' || c == '#' || c == '"' || c == '\'' {
            return true;
        }
        i += 1;
    }
    false
}

/// Whether `text` can be the decimal text of a number.
fn holds_numeral(text: &Vec<char>) -> (r: bool)
    ensures
        r == is_numeral(text@),
{
    if text.len() == 0 {
        return false;
    }
    let mut i: usize = 0;
    while i < text.len()
        invariant
            i <= text.len(),
            forall|j: int| 0 <= j < i ==> is_numeral_char(#[trigger] text@[j]),
        decreases text.len() - i,
    {
        let c = text[i];
        let fits = ('0' <= c && c <= '9') || ('a' <= c && c <= 'z') || ('A' <= c && c <= 'Z') || c
            == '+' || c == '-' || c == '.';
        if !fits {
            return false;
        }
        i += 1;
    }
    true
}

impl Serializer {
    /// A serializer that has written nothing, for keys in the namespace that
    /// `prefix` stands for.
    pub fn new(prefix: Option<&str>) -> (r: Serializer)
        ensures
            r@ == EncodingState::fresh(namespace(prefix_chars(prefix))),
    {
        let base_prefix = match prefix {
            Some(p) => to_upper(p),
            None => Vec::new(),
        };
        Serializer {
            output: Vec::new(),
            base_prefix,
            prefix: Vec::new(),
            key: false,
            sequence: false,
            prefix_before: Vec::new(),
        }
    }

    /// The text that was written.
    pub fn into_string(self) -> (r: String)
        ensures
            r@ == self@.output,
    {
        string_of(&self.output)
    }

    /// Takes the line breaks off the end of the output.
    pub fn strip_line_breaks(&mut self)
        ensures
            final(self)@ == (EncodingState {
                output: without_trailing_breaks(old(self)@.output),
                ..old(self)@
            }),
    {
        while self.output.len() > 0 && self.output[self.output.len() - 1] == '\n'
            invariant
                without_trailing_breaks(self.output@) == without_trailing_breaks(old(self).output@),
                self.base_prefix == old(self).base_prefix,
                self.prefix == old(self).prefix,
                self.key == old(self).key,
                self.sequence == old(self).sequence,
                self.prefix_before == old(self).prefix_before,
            decreases self.output.len(),
        {
            self.output.pop();
        }
    }

    /// Writes `true` or `false`.
    pub fn serialize_bool(&mut self, v: bool) -> (r: Result<(), Error>)
        ensures
            r is Ok,
            final(self)@ == old(self)@.wrote(bool_text(v)),
    {
        let text = if v {
            chars_of("true")
        } else {
            chars_of("false")
        };
        push_all(&mut self.output, &text);
        Ok(())
    }

    /// Writes a signed integer of 8 bits as decimal text.
    pub fn serialize_i8(&mut self, v: i8) -> (r: Result<(), Error>)
        ensures
            r is Ok,
            final(self)@ == old(self)@.wrote(decimal_int(v as int)),
    {
        self.serialize_i64(v as i64)
    }

    /// Writes a signed integer of 16 bits as decimal text.
    pub fn serialize_i16(&mut self, v: i16) -> (r: Result<(), Error>)
        ensures
            r is Ok,
            final(self)@ == old(self)@.wrote(decimal_int(v as int)),
    {
        self.serialize_i64(v as i64)
    }

    /// Writes a signed integer of 32 bits as decimal text.
    pub fn serialize_i32(&mut self, v: i32) -> (r: Result<(), Error>)
        ensures
            r is Ok,
            final(self)@ == old(self)@.wrote(decimal_int(v as int)),
    {
        self.serialize_i64(v as i64)
    }

    /// Writes an unsigned integer of 8 bits as decimal text.
    pub fn serialize_u8(&mut self, v: u8) -> (r: Result<(), Error>)
        ensures
            r is Ok,
            final(self)@ == old(self)@.wrote(decimal_nat(v as nat)),
    {
        self.serialize_u64(v as u64)
    }

    /// Writes an unsigned integer of 16 bits as decimal text.
    pub fn serialize_u16(&mut self, v: u16) -> (r: Result<(), Error>)
        ensures
            r is Ok,
            final(self)@ == old(self)@.wrote(decimal_nat(v as nat)),
    {
        self.serialize_u64(v as u64)
    }

    /// Writes an unsigned integer of 32 bits as decimal text.
    pub fn serialize_u32(&mut self, v: u32) -> (r: Result<(), Error>)
        ensures
            r is Ok,
            final(self)@ == old(self)@.wrote(decimal_nat(v as nat)),
    {
        self.serialize_u64(v as u64)
    }

    /// Writes a signed integer as decimal text.
    pub fn serialize_i64(&mut self, v: i64) -> (r: Result<(), Error>)
        ensures
            r is Ok,
            final(self)@ == old(self)@.wrote(decimal_int(v as int)),
    {
        push_decimal_i64(&mut self.output, v);
        Ok(())
    }

    /// Writes an unsigned integer as decimal text.
    pub fn serialize_u64(&mut self, v: u64) -> (r: Result<(), Error>)
        ensures
            r is Ok,
            final(self)@ == old(self)@.wrote(decimal_nat(v as nat)),
    {
        push_decimal_u64(&mut self.output, v);
        Ok(())
    }

    /// Writes a floating-point number, given as its decimal text. A text that
    /// cannot be that of a number is refused.
    pub fn serialize_f64(&mut self, text: &str) -> (r: Result<(), Error>)
        ensures
            is_numeral(text@) ==> r is Ok && final(self)@ == old(self)@.wrote(text@),
            !is_numeral(text@) ==> r == Err::<(), Error>(Error::Syntax) && final(self)@ == old(
                self,
            )@,
    {
        let chars = chars_of(text);
        if !holds_numeral(&chars) {
            return Err(Error::Syntax);
        }
        push_all(&mut self.output, &chars);
        Ok(())
    }

    /// Writes a string. Where a key is awaited, the string is the next
    /// segment of the key: it extends the key path in upper case, and the key
    /// is written with the namespace before it, unless it holds a forbidden
    /// character. Elsewhere the string is a value: written between double
    /// quotes as it is, and not at all if it is empty.
    pub fn serialize_str(&mut self, v: &str) -> (r: Result<(), Error>)
        ensures
            old(self)@.wrote_str(v@, r, final(self)@),
    {
        if self.key {
            let mut key = copy_of(&self.base_prefix);
            if self.prefix.len() != 0 {
                self.prefix.push('_');
            }
            let upper = to_upper(v);
            push_all(&mut self.prefix, &upper);
            push_all(&mut key, &self.prefix);
            assert(self.prefix@ =~= extended(old(self)@.prefix, upper_case(v@)));
            if holds_forbidden(&key) {
                assert(self@ =~= (EncodingState { prefix: self.prefix@, ..old(self)@ }));
                return Err(Error::Syntax);
            }
            push_all(&mut self.output, &key);
            assert(self@ =~= (EncodingState {
                prefix: self.prefix@,
                output: old(self)@.output + key@,
                ..old(self)@
            }));
        } else if !v.is_empty() {
            self.output.push('"');
            let chars = chars_of(v);
            push_all(&mut self.output, &chars);
            self.output.push('"');
            assert(self@ =~= old(self)@.wrote(quoted(v@)));
        } else {
            assert(self@ =~= old(self)@.wrote(quoted(v@)));
        }
        Ok(())
    }

    /// Writes bytes as the string that they encode; bytes that are no UTF-8
    /// are refused.
    pub fn serialize_bytes(&mut self, v: &Vec<u8>) -> (r: Result<(), Error>)
        ensures
            valid_utf8(v@) ==> old(self)@.wrote_str(decode_utf8(v@), r, final(self)@),
            !valid_utf8(v@) ==> r == Err::<(), Error>(Error::Syntax) && final(self)@ == old(self)@,
    {
        match String::from_utf8(v.clone()) {
            Ok(s) => self.serialize_str(s.as_str()),
            Err(_) => Err(Error::Syntax),
        }
    }

    /// Writes nothing: an absent value has no text.
    pub fn serialize_none(&mut self) -> (r: Result<(), Error>)
        ensures
            r is Ok,
            final(self)@ == old(self)@,
    {
        self.serialize_unit()
    }

    /// Writes nothing.
    pub fn serialize_unit(&mut self) -> (r: Result<(), Error>)
        ensures
            r is Ok,
            final(self)@ == old(self)@,
    {
        Ok(())
    }

    /// Writes a variant that carries nothing, as the string of its name.
    pub fn serialize_unit_variant(&mut self, variant: &str) -> (r: Result<(), Error>)
        ensures
            old(self)@.wrote_str(variant@, r, final(self)@),
    {
        self.serialize_str(variant)
    }

    /// Opens a sequence. Inside a sequence no other can be opened.
    pub fn serialize_seq(&mut self) -> (r: Result<(), Error>)
        ensures
            old(self)@.sequence ==> r == Err::<(), Error>(Error::UnsupportedStructureInSeq)
                && final(self)@ == old(self)@,
            !old(self)@.sequence ==> r is Ok && final(self)@ == (EncodingState {
                sequence: true,
                ..old(self)@
            }),
    {
        if self.sequence {
            return Err(Error::UnsupportedStructureInSeq);
        }
        self.sequence = true;
        Ok(())
    }

    /// Refuses a compound whose fields have no names.
    pub fn serialize_tuple_struct(&mut self) -> (r: Result<(), Error>)
        ensures
            r == Err::<(), Error>(Error::UnsupportedTupleStruct),
            final(self)@ == old(self)@,
    {
        Err(Error::UnsupportedTupleStruct)
    }

    /// Opens a compound. Inside a sequence none can be opened.
    pub fn serialize_map(&mut self) -> (r: Result<(), Error>)
        ensures
            final(self)@ == old(self)@,
            old(self)@.sequence ==> r == Err::<(), Error>(Error::UnsupportedStructureInSeq),
            !old(self)@.sequence ==> r is Ok,
    {
        if self.sequence {
            return Err(Error::UnsupportedStructureInSeq);
        }
        Ok(())
    }

    /// Closes the sequence or the compound that is open. A sequence loses the
    /// comma after its last element and is left; either loses the line breaks
    /// at the end of the output.
    pub fn end(&mut self) -> (r: Result<(), Error>)
        ensures
            r is Ok,
            final(self)@ == (EncodingState {
                output: without_trailing_breaks(
                    without_last_comma(old(self)@.output, old(self)@.sequence),
                ),
                sequence: false,
                ..old(self)@
            }),
    {
        if self.sequence {
            let n: usize = self.output.len();
            if n > 0 && self.output[n - 1] == ',' {
                self.output.pop();
            }
            self.sequence = false;
        }
        self.strip_line_breaks();
        Ok(())
    }

    /// Opens the field `name`: takes back the opening of the enclosing field
    /// where the output ends with it, keeps the key path to come back to, and
    /// writes the key of the field.
    pub fn serialize_map_struct_key(&mut self, name: &str) -> (r: Result<(), Error>)
        ensures
            old(self)@.sequence ==> r == Err::<(), Error>(Error::UnsupportedStructureInSeq)
                && final(self)@ == old(self)@,
            !old(self)@.sequence ==> ({
                let before = old(self)@;
                let path = extended(before.prefix, upper_case(name@));
                let full = before.base_prefix + path;
                if has_forbidden(full) {
                    r == Err::<(), Error>(Error::Syntax)
                } else {
                    r is Ok && final(self)@ == (EncodingState {
                        output: retracted(before.output, stub(before.base_prefix, before.prefix))
                            + full,
                        prefix: path,
                        prefix_before: before.prefix,
                        key: false,
                        ..before
                    })
                }
            }),
    {
        if self.sequence {
            return Err(Error::UnsupportedStructureInSeq);
        }
        self.prefix_before = copy_of(&self.prefix);
        let mut opening = copy_of(&self.base_prefix);
        push_all(&mut opening, &self.prefix);
        opening.push('=');
        if ends_with(&self.output, &opening) {
            let keep: usize = self.output.len() - opening.len();
            self.output.truncate(keep);
        }
        self.key = true;
        let r = self.serialize_str(name);
        self.key = false;
        r
    }

    /// Writes the value of the field that is open: `=`, the value, a line
    /// break. Then the key path is that of the compound again.
    pub fn serialize_map_struct_value(&mut self, value: &StructuredValue) -> (r: Result<
        (),
        Error,
    >)
        requires
            !old(self)@.key,
        ensures
            old(self)@.sequence ==> r == Err::<(), Error>(Error::UnsupportedStructureInSeq),
            !old(self)@.sequence ==> ({
                let before = old(self)@;
                let opened = before.output.push('=');
                match rendered(before.base_prefix, before.prefix, false, value@) {
                    Err(e) => r == Err::<(), Error>(e),
                    Ok(Rendered::Text(text)) => r is Ok && final(self)@ == (EncodingState {
                        output: (opened + text).push('\n'),
                        prefix: before.prefix_before,
                        ..before
                    }),
                    Ok(Rendered::Lines(lines)) => r is Ok && final(self)@ == (EncodingState {
                        output: (if lines.len() == 0 {
                            opened
                        } else {
                            retracted(opened, stub(before.base_prefix, before.prefix)) + joined(
                                lines,
                            )
                        }).push('\n'),
                        prefix: before.prefix_before,
                        ..before
                    }),
                }
            }),
        decreases value, 1nat,
    {
        if self.sequence {
            return Err(Error::UnsupportedStructureInSeq);
        }
        self.output.push('=');
        let saved = copy_of(&self.prefix_before);
        match self.encode(value) {
            Ok(()) => {},
            Err(e) => {
                return Err(e);
            },
        }
        self.output.push('\n');
        self.prefix_before = saved;
        self.prefix = copy_of(&self.prefix_before);
        Ok(())
    }

    /// Writes one field of a compound: its key, then its value.
    pub fn serialize_field(&mut self, key: &str, value: &StructuredValue) -> (r: Result<(), Error>)
        ensures
            old(self)@.sequence ==> r == Err::<(), Error>(Error::UnsupportedStructureInSeq),
            !old(self)@.sequence ==> ({
                let before = old(self)@;
                match field_lines(before.base_prefix, before.prefix, key@, value@) {
                    Err(e) => r == Err::<(), Error>(e),
                    Ok(lines) => r is Ok && final(self)@ == (EncodingState {
                        output: (retracted(
                            before.output,
                            stub(before.base_prefix, before.prefix),
                        ) + joined(lines)).push('\n'),
                        prefix_before: before.prefix,
                        key: false,
                        ..before
                    }),
                }
            }),
        decreases value, 2nat,
    {
        match self.serialize_map_struct_key(key) {
            Ok(()) => {},
            Err(e) => {
                return Err(e);
            },
        }
        let ghost opened = self@;
        let r = self.serialize_map_struct_value(value);
        proof {
            let before = old(self)@;
            let kept = retracted(before.output, stub(before.base_prefix, before.prefix));
            assert(opened.output.push('=') =~= kept + stub(before.base_prefix, opened.prefix));
            lemma_retracted_written(kept, stub(before.base_prefix, opened.prefix));
            match rendered(before.base_prefix, opened.prefix, false, value@) {
                Ok(Rendered::Text(text)) => {
                    let line = stub(before.base_prefix, opened.prefix) + text;
                    assert(joined(seq![line]) == line);
                    assert(self@ =~= (EncodingState {
                        output: (kept + joined(seq![line])).push('\n'),
                        prefix_before: before.prefix,
                        key: false,
                        ..before
                    }));
                },
                Ok(Rendered::Lines(lines)) => {
                    let line = stub(before.base_prefix, opened.prefix);
                    assert(joined(seq![line]) == line);
                    if lines.len() == 0 {
                        assert(self@ =~= (EncodingState {
                            output: (kept + joined(seq![line])).push('\n'),
                            prefix_before: before.prefix,
                            key: false,
                            ..before
                        }));
                    }
                },
                Err(_) => {},
            }
        }
        r
    }

    /// Writes one element of a sequence, and a comma after it.
    pub fn serialize_element(&mut self, value: &StructuredValue) -> (r: Result<(), Error>)
        requires
            old(self)@.ready(),
        ensures
            match rendered(
                old(self)@.base_prefix,
                old(self)@.prefix,
                old(self)@.sequence,
                value@,
            ) {
                Err(e) => r == Err::<(), Error>(e),
                Ok(shape) => r is Ok && old(self)@.same_place(final(self)@)
                    && final(self)@.output == old(self)@.placed_output(shape).push(','),
            },
        decreases value, 1nat,
    {
        let r = self.encode(value);
        self.output.push(',');
        r
    }

    /// Writes a value that may be absent and is there.
    pub fn serialize_some(&mut self, value: &StructuredValue) -> (r: Result<(), Error>)
        requires
            old(self)@.ready(),
        ensures
            old(self)@.encoded(value@, r, final(self)@),
        decreases value, 1nat,
    {
        self.encode(value)
    }

    /// Writes a variant that carries a value. Inside a sequence the value
    /// stands for the variant; elsewhere the variant is written as a compound
    /// of one field that has the variant's name.
    pub fn serialize_newtype_variant(&mut self, variant: &str, value: &StructuredValue) -> (r:
        Result<(), Error>)
        requires
            old(self)@.ready(),
        ensures
            match (if old(self)@.sequence {
                rendered(old(self)@.base_prefix, old(self)@.prefix, true, value@)
            } else {
                match field_lines(old(self)@.base_prefix, old(self)@.prefix, variant@, value@) {
                    Ok(lines) => Ok(Rendered::Lines(lines)),
                    Err(e) => Err(e),
                }
            }) {
                Err(e) => r == Err::<(), Error>(e),
                Ok(shape) => r is Ok && old(self)@.placed(shape, final(self)@),
            },
        decreases value, 3nat,
    {
        if self.sequence {
            return self.encode(value);
        }
        match self.serialize_map() {
            Ok(()) => {},
            Err(e) => {
                return Err(e);
            },
        }
        match self.serialize_field(variant, value) {
            Ok(()) => {},
            Err(e) => {
                return Err(e);
            },
        }
        proof {
            let before = old(self)@;
            lemma_field_lines_tidy(before.base_prefix, before.prefix, variant@, value@);
            let lines = field_lines(before.base_prefix, before.prefix, variant@, value@)->Ok_0;
            lemma_joined_tidy(lines);
            let kept = retracted(before.output, stub(before.base_prefix, before.prefix));
            lemma_one_break(kept + joined(lines));
        }
        self.end()
    }

    /// Writes the value `v` at the place where the serializer stands.
    pub fn encode(&mut self, v: &StructuredValue) -> (r: Result<(), Error>)
        requires
            old(self)@.ready(),
        ensures
            old(self)@.encoded(v@, r, final(self)@),
        decreases v, 0nat,
    {
        match v {
            StructuredValue::Bool(b) => self.serialize_bool(*b),
            StructuredValue::Int(i) => self.serialize_i64(*i),
            StructuredValue::UInt(u) => self.serialize_u64(*u),
            StructuredValue::Float(text) => self.serialize_f64(text.as_str()),
            StructuredValue::Str(s) => self.serialize_str(s.as_str()),
            StructuredValue::Bytes(bytes) => self.serialize_bytes(bytes),
            StructuredValue::Optional(None) => {
                assert(old(self)@.output + Seq::<char>::empty() =~= old(self)@.output);
                self.serialize_none()
            },
            StructuredValue::Optional(Some(inner)) => self.serialize_some(inner),
            StructuredValue::EnumVariant(name, None) => self.serialize_unit_variant(name.as_str()),
            StructuredValue::EnumVariant(name, Some(payload)) => self.serialize_newtype_variant(
                name.as_str(),
                payload,
            ),
            StructuredValue::Tuple(_) => self.serialize_tuple_struct(),
            StructuredValue::Sequence(items) => {
                match self.serialize_seq() {
                    Ok(()) => {},
                    Err(e) => {
                        return Err(e);
                    },
                }
                let mut i: usize = 0;
                while i < items.len()
                    invariant
                        i <= items.len(),
                        *v == StructuredValue::Sequence(*items),
                        old(self)@.ready(),
                        !old(self)@.sequence,
                        self@.sequence,
                        self@.key == old(self)@.key,
                        self@.base_prefix == old(self)@.base_prefix,
                        self@.prefix == old(self)@.prefix,
                        elements_text(self@.base_prefix, self@.prefix, v@, i as nat) is Ok,
                        self@.output == if i == 0 {
                            old(self)@.output
                        } else {
                            (old(self)@.output + elements_text(
                                self@.base_prefix,
                                self@.prefix,
                                v@,
                                i as nat,
                            )->Ok_0).push(',')
                        },
                    decreases items.len() - i,
                {
                    proof {
                        assert(v@->Sequence_0[i as int] == items@[i as int]@);
                        lemma_rendered_tidy(self@.base_prefix, self@.prefix, true, items@[i as int]@);
                    }
                    match self.serialize_element(&items[i]) {
                        Ok(()) => {},
                        Err(e) => {
                            proof {
                                lemma_elements_text_refused(
                                    old(self)@.base_prefix,
                                    old(self)@.prefix,
                                    v@,
                                    (i + 1) as nat,
                                    items.len() as nat,
                                );
                            }
                            return Err(e);
                        },
                    }
                    i += 1;
                }
                proof {
                    let before = old(self)@;
                    let text = elements_text(before.base_prefix, before.prefix, v@, i as nat)->Ok_0;
                    lemma_elements_text_tidy(before.base_prefix, before.prefix, v@, i as nat);
                    if i == 0 {
                        assert(before.output + text =~= before.output);
                    } else {
                        assert((before.output + text).push(',').drop_last() =~= before.output
                            + text);
                    }
                    lemma_tidy_unchanged(before.output + text);
                }
                self.end()
            },
            StructuredValue::Compound(fields) => {
                match self.serialize_map() {
                    Ok(()) => {},
                    Err(e) => {
                        return Err(e);
                    },
                }
                let mut i: usize = 0;
                while i < fields.len()
                    invariant
                        i <= fields.len(),
                        *v == StructuredValue::Compound(*fields),
                        old(self)@.ready(),
                        !self@.sequence,
                        self@.sequence == old(self)@.sequence,
                        self@.key == old(self)@.key,
                        self@.base_prefix == old(self)@.base_prefix,
                        self@.prefix == old(self)@.prefix,
                        lines_upto(self@.base_prefix, self@.prefix, v@, i as nat) is Ok,
                        self@.output == if i == 0 {
                            old(self)@.output
                        } else {
                            (retracted(
                                old(self)@.output,
                                stub(self@.base_prefix, self@.prefix),
                            ) + joined(
                                lines_upto(self@.base_prefix, self@.prefix, v@, i as nat)->Ok_0,
                            )).push('\n')
                        },
                    decreases fields.len() - i,
                {
                    let ghost here = self@;
                    assert(v@->Compound_0[i as int] == (fields@[i as int].0@, fields@[i as int].1@));
                    match self.serialize_field(fields[i].0.as_str(), &fields[i].1) {
                        Ok(()) => {},
                        Err(e) => {
                            proof {
                                lemma_lines_upto_refused(
                                    old(self)@.base_prefix,
                                    old(self)@.prefix,
                                    v@,
                                    (i + 1) as nat,
                                    fields.len() as nat,
                                );
                            }
                            return Err(e);
                        },
                    }
                    proof {
                        let before = old(self)@;
                        let opening = stub(here.base_prefix, here.prefix);
                        let kept = retracted(before.output, opening);
                        let earlier = lines_upto(here.base_prefix, here.prefix, v@, i as nat)->Ok_0;
                        let lines = field_lines(
                            here.base_prefix,
                            here.prefix,
                            fields[i as int].0@,
                            fields[i as int].1@,
                        )->Ok_0;
                        lemma_field_lines_tidy(
                            here.base_prefix,
                            here.prefix,
                            fields[i as int].0@,
                            fields[i as int].1@,
                        );
                        if i > 0 {
                            lemma_lines_upto_tidy(here.base_prefix, here.prefix, v@, i as nat);
                            lemma_retracted_other(here.output, opening);
                            lemma_joined_concat(earlier, lines);
                            assert(self@.output =~= (kept + joined(earlier + lines)).push('\n'));
                        } else {
                            assert(earlier + lines =~= lines);
                        }
                    }
                    i += 1;
                }
                proof {
                    let before = old(self)@;
                    let lines = lines_upto(before.base_prefix, before.prefix, v@, i as nat)->Ok_0;
                    lemma_lines_upto_tidy(before.base_prefix, before.prefix, v@, i as nat);
                    if i == 0 {
                        lemma_tidy_unchanged(before.output);
                    } else {
                        lemma_joined_tidy(lines);
                        lemma_one_break(
                            retracted(before.output, stub(before.base_prefix, before.prefix))
                                + joined(lines),
                        );
                    }
                }
                self.end()
            },
        }
    }
}

/// Serialize data into an environment variable string: the encoding of `v`
/// without a namespace.
pub fn to_string(v: &StructuredValue) -> (r: Result<String, Error>)
    ensures
        match encoding(Seq::empty(), v@) {
            Ok(text) => r matches Ok(s) && s@ == text,
            Err(e) => r == Err::<String, Error>(e),
        },
{
    to_string_inner(None, v)
}

/// Serialize data into an environment variable string, with every key in
/// the namespace that `prefix` stands for.
pub fn to_string_inner(prefix: Option<&str>, v: &StructuredValue) -> (r: Result<String, Error>)
    ensures
        match encoding(namespace(prefix_chars(prefix)), v@) {
            Ok(text) => r matches Ok(s) && s@ == text,
            Err(e) => r == Err::<String, Error>(e),
        },
{
    let mut serializer = Serializer::new(prefix);
    match serializer.encode(v) {
        Ok(()) => {},
        Err(e) => {
            return Err(e);
        },
    }
    proof {
        let base = namespace(prefix_chars(prefix));
        match rendered(base, Seq::empty(), false, v@) {
            Ok(Rendered::Text(text)) => {
                assert(Seq::<char>::empty() + text =~= text);
            },
            Ok(Rendered::Lines(lines)) => {
                if lines.len() > 0 {
                    lemma_retracted_other(Seq::empty(), stub(base, Seq::empty()));
                    assert(Seq::<char>::empty() + joined(lines) =~= joined(lines));
                }
            },
            Err(_) => {},
        }
    }
    Ok(serializer.into_string())
}

/// Serialize data as environment variables into a writer: the bytes of the
/// encoding of `v`, after what the writer holds. A value that is refused
/// leaves the writer as it is.
pub fn to_writer(writer: &mut Vec<u8>, v: &StructuredValue) -> (r: Result<(), Error>)
    ensures
        match encoding(Seq::empty(), v@) {
            Ok(text) => r is Ok && final(writer)@ == old(writer)@ + encode_utf8(text),
            Err(e) => r == Err::<(), Error>(e) && final(writer)@ == old(writer)@,
        },
{
    to_writer_inner(None, writer, v)
}

/// Serialize data as environment variables into a writer, with every key in
/// the namespace that `prefix` stands for.
pub fn to_writer_inner(prefix: Option<&str>, writer: &mut Vec<u8>, v: &StructuredValue) -> (r:
    Result<(), Error>)
    ensures
        match encoding(namespace(prefix_chars(prefix)), v@) {
            Ok(text) => r is Ok && final(writer)@ == old(writer)@ + encode_utf8(text),
            Err(e) => r == Err::<(), Error>(e) && final(writer)@ == old(writer)@,
        },
{
    match to_string_inner(prefix, v) {
        Ok(text) => {
            let bytes = text.as_str().as_bytes();
            let mut i: usize = 0;
            while i < bytes.len()
                invariant
                    i <= bytes.len(),
                    writer@ == old(writer)@ + bytes@.take(i as int),
                decreases bytes.len() - i,
            {
                writer.push(bytes[i]);
                i += 1;
            }
            assert(bytes@.take(i as int) =~= bytes@);
            Ok(())
        },
        Err(e) => Err(e),
    }
}

/// The line of one pair of a container: the key in upper case after the
/// namespace, `=`, and the value as a string.
pub open spec fn entry_line(base: Seq<char>, entry: (Seq<char>, Seq<char>)) -> Seq<char> {
    base + upper_case(entry.0) + seq!['='] + quoted(entry.1)
}

/// The lines of the first `n` pairs of a container; the first key that
/// holds a forbidden character decides the error.
pub open spec fn entries_lines(base: Seq<char>, entries: Seq<(Seq<char>, Seq<char>)>, n: nat) -> Result<
    Seq<Seq<char>>,
    Error,
>
    decreases n,
{
    if 0 < n <= entries.len() {
        match entries_lines(base, entries, (n - 1) as nat) {
            Err(e) => Err(e),
            Ok(before) => if has_forbidden(base + upper_case(entries[n - 1].0)) {
                Err(Error::Syntax)
            } else {
                Ok(before.push(entry_line(base, entries[n - 1])))
            },
        }
    } else {
        Ok(Seq::empty())
    }
}

/// The encoding of a container in the namespace `base`: one line for each
/// pair, in order.
pub open spec fn entries_encoding(base: Seq<char>, entries: Seq<(Seq<char>, Seq<char>)>) -> Result<
    Seq<char>,
    Error,
> {
    match entries_lines(base, entries, entries.len()) {
        Ok(lines) => Ok(joined(lines)),
        Err(e) => Err(e),
    }
}

/// The compound that stands for a container has the lines of the
/// container's pairs.
pub proof fn lemma_entries_lines(base: Seq<char>, entries: Seq<(Seq<char>, Seq<char>)>, n: nat)
    requires
        n <= entries.len(),
    ensures
        lines_upto(base, Seq::empty(), entries_tree(entries), n) == entries_lines(base, entries, n),
    decreases n,
{
    if n > 0 {
        lemma_entries_lines(base, entries, (n - 1) as nat);
        let v = entries_tree(entries);
        let field = v->Compound_0[n - 1];
        let key = extended(Seq::empty(), upper_case(field.0));
        assert(key == upper_case(entries[n - 1].0));
        let line = entry_line(base, entries[n - 1]);
        assert(stub(base, key) + quoted(entries[n - 1].1) =~= line);
        assert(rendered(base, key, false, field.1) == Ok::<Rendered, Error>(
            Rendered::Text(quoted(entries[n - 1].1)),
        ));
        assert(field_lines(base, Seq::empty(), field.0, field.1) == (if has_forbidden(
            base + key,
        ) {
            Err::<Seq<Seq<char>>, Error>(Error::Syntax)
        } else {
            Ok(seq![line])
        }));
        match entries_lines(base, entries, (n - 1) as nat) {
            Ok(before) => {
                assert(before + seq![line] =~= before.push(line));
            },
            Err(_) => {},
        }
    }
}

/// Encoding the compound that stands for a container gives the container's
/// lines, joined.
pub proof fn lemma_entries_encoding(base: Seq<char>, entries: Seq<(Seq<char>, Seq<char>)>)
    ensures
        encoding(base, entries_tree(entries)) == entries_encoding(base, entries),
{
    lemma_entries_lines(base, entries, entries.len());
}

/// Serialize a container into an environment variable string, with every
/// key in the namespace that `prefix` stands for: one line `KEY="value"` for
/// each pair, in the container's order.
pub fn value_to_string(prefix: Option<&str>, value: &Value) -> (r: Result<String, Error>)
    ensures
        match entries_encoding(namespace(prefix_chars(prefix)), value@) {
            Ok(text) => r matches Ok(s) && s@ == text,
            Err(e) => r == Err::<String, Error>(e),
        },
{
    let v = value.to_structured();
    proof {
        lemma_entries_encoding(namespace(prefix_chars(prefix)), value@);
    }
    to_string_inner(prefix, &v)
}

} // verus!
