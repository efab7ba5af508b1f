//! Integers as decimal text.
//!
//! The text of an integer is the shortest one: no leading zeros, no `+`, a
//! leading `-` for a negative number. [`decimal_value`] reads such a text
//! back, and [`lemma_decimal_round_trip`] shows that nothing is lost.

use vstd::prelude::*;

verus! {

/// The character of the digit `d`, for `0 <= d < 10`.
pub open spec fn digit_char(d: int) -> char {
    if d == 0 {
        '0'
    } else if d == 1 {
        '1'
    } else if d == 2 {
        '2'
    } else if d == 3 {
        '3'
    } else if d == 4 {
        '4'
    } else if d == 5 {
        '5'
    } else if d == 6 {
        '6'
    } else if d == 7 {
        '7'
    } else if d == 8 {
        '8'
    } else {
        '9'
    }
}

/// The digit that the character `c` stands for, or `-1` if it is no digit.
pub open spec fn digit_value(c: char) -> int {
    if c == '0' {
        0
    } else if c == '1' {
        1
    } else if c == '2' {
        2
    } else if c == '3' {
        3
    } else if c == '4' {
        4
    } else if c == '5' {
        5
    } else if c == '6' {
        6
    } else if c == '7' {
        7
    } else if c == '8' {
        8
    } else if c == '9' {
        9
    } else {
        -1
    }
}

/// The decimal text of a natural number.
pub open spec fn decimal_nat(n: nat) -> Seq<char>
    decreases n,
{
    if n < 10 {
        seq![digit_char(n as int)]
    } else {
        decimal_nat(n / 10).push(digit_char((n % 10) as int))
    }
}

/// The decimal text of an integer.
pub open spec fn decimal_int(i: int) -> Seq<char> {
    if i < 0 {
        seq!['-'] + decimal_nat((-i) as nat)
    } else {
        decimal_nat(i as nat)
    }
}

/// The number that a text of digits denotes, read from the left; a character
/// that is no digit counts as `-1`.
pub open spec fn digits_value(s: Seq<char>) -> int
    decreases s.len(),
{
    if s.len() == 0 {
        0
    } else {
        digits_value(s.drop_last()) * 10 + digit_value(s.last())
    }
}

/// The integer that a decimal text denotes: digits, after `-` the negative.
pub open spec fn decimal_value(s: Seq<char>) -> int {
    if s.len() > 0 && s[0] == '-' {
        -digits_value(s.skip(1))
    } else {
        digits_value(s)
    }
}

/// Whether every character of `s` is a decimal digit.
pub open spec fn all_digits(s: Seq<char>) -> bool {
    forall|i: int| 0 <= i < s.len() ==> 0 <= digit_value(#[trigger] s[i]) <= 9
}

/// The text of a natural number is one digit at least, digits only, and
/// denotes the number.
pub proof fn lemma_decimal_nat(n: nat)
    ensures
        decimal_nat(n).len() >= 1,
        all_digits(decimal_nat(n)),
        digits_value(decimal_nat(n)) == n,
        n > 0 ==> decimal_nat(n)[0] != '0',
    decreases n,
{
    if n < 10 {
        let s = decimal_nat(n);
        assert(s.drop_last() =~= Seq::<char>::empty());
        assert(digits_value(s.drop_last()) == 0);
    } else {
        lemma_decimal_nat(n / 10);
        let prev = decimal_nat(n / 10);
        let s = decimal_nat(n);
        assert(s.drop_last() =~= prev);
        assert(s.last() == digit_char((n % 10) as int));
        assert(s[0] == prev[0]);
    }
}

/// Nothing is lost in writing: the decimal text of an integer denotes that
/// integer, so reading back what was written gives the value that was
/// written.
pub proof fn lemma_decimal_round_trip(i: int)
    ensures
        decimal_value(decimal_int(i)) == i,
{
    if i < 0 {
        let body = decimal_nat((-i) as nat);
        lemma_decimal_nat((-i) as nat);
        assert(decimal_int(i).skip(1) =~= body);
    } else {
        lemma_decimal_nat(i as nat);
        assert(digit_value(decimal_nat(i as nat)[0]) >= 0);
    }
}

/// The decimal text of an integer holds a character at least and ends with a
/// digit.
pub proof fn lemma_decimal_tidy(i: int)
    ensures
        decimal_int(i).len() >= 1,
        0 <= digit_value(decimal_int(i).last()) <= 9,
        decimal_int(i).last() != '\n',
{
    if i < 0 {
        lemma_decimal_nat((-i) as nat);
        let body = decimal_nat((-i) as nat);
        assert(decimal_int(i).last() == body[body.len() - 1]);
    } else {
        lemma_decimal_nat(i as nat);
        let body = decimal_nat(i as nat);
        assert(decimal_int(i).last() == body[body.len() - 1]);
    }
}

/// Two integers with the same decimal text are the same integer.
pub proof fn lemma_decimal_injective(i: int, j: int)
    requires
        decimal_int(i) == decimal_int(j),
    ensures
        i == j,
{
    lemma_decimal_round_trip(i);
    lemma_decimal_round_trip(j);
}

/// The character of the digit `d`.
fn digit_of(d: u64) -> (c: char)
    requires
        d < 10,
    ensures
        c == digit_char(d as int),
{
    if d == 0 {
        '0'
    } else if d == 1 {
        '1'
    } else if d == 2 {
        '2'
    } else if d == 3 {
        '3'
    } else if d == 4 {
        '4'
    } else if d == 5 {
        '5'
    } else if d == 6 {
        '6'
    } else if d == 7 {
        '7'
    } else if d == 8 {
        '8'
    } else {
        '9'
    }
}

/// Appends the decimal text of `n` to `out`.
pub fn push_decimal_u64(out: &mut Vec<char>, n: u64)
    ensures
        final(out)@ == old(out)@ + decimal_nat(n as nat),
    decreases n,
{
    if n >= 10 {
        push_decimal_u64(out, n / 10);
    }
    out.push(digit_of(n % 10));
    assert(out@ =~= old(out)@ + decimal_nat(n as nat));
}

/// Appends the decimal text of `i` to `out`.
pub fn push_decimal_i64(out: &mut Vec<char>, i: i64)
    ensures
        final(out)@ == old(out)@ + decimal_int(i as int),
{
    if i < 0 {
        out.push('-');
        let magnitude: u64 = if i == i64::MIN {
            9223372036854775808u64
        } else {
            (-i) as u64
        };
        push_decimal_u64(out, magnitude);
        assert(out@ =~= old(out)@ + decimal_int(i as int));
    } else {
        push_decimal_u64(out, i as u64);
    }
}

} // verus!
