//! Decimal rendering of machine integers, and reading a signed decimal
//! numeral back as an `i32`.

use vstd::prelude::*;

verus! {

/// The character for one decimal digit value.
pub open spec fn digit_char(d: int) -> char {
    if d == 0 {
        '0'
    } else if d == 1 {
        '1'
    } else if d == 2 {
        '2'
    } else if d == 3 {
        '3'
    } else if d == 4 {
        '4'
    } else if d == 5 {
        '5'
    } else if d == 6 {
        '6'
    } else if d == 7 {
        '7'
    } else if d == 8 {
        '8'
    } else {
        '9'
    }
}

/// The decimal digits of a nonnegative integer, most significant first,
/// with no leading zeros (a lone zero for 0).
pub open spec fn dec_digits(n: nat) -> Seq<char>
    decreases n,
{
    if n < 10 {
        seq![digit_char(n as int)]
    } else {
        dec_digits(n / 10).push(digit_char((n % 10) as int))
    }
}

/// The decimal text of an integer: a minus sign for negative values,
/// then the digits of the magnitude.
pub open spec fn int_text(n: int) -> Seq<char> {
    if n < 0 {
        seq!['-'] + dec_digits((-n) as nat)
    } else {
        dec_digits(n as nat)
    }
}

/// A decimal digit character.
pub open spec fn is_digit(c: char) -> bool {
    c == '0' || c == '1' || c == '2' || c == '3' || c == '4' || c == '5' || c == '6' || c == '7'
        || c == '8' || c == '9'
}

/// The value of one decimal digit character (zero for any other
/// character).
pub open spec fn digit_val(c: char) -> nat {
    if c == '1' {
        1
    } else if c == '2' {
        2
    } else if c == '3' {
        3
    } else if c == '4' {
        4
    } else if c == '5' {
        5
    } else if c == '6' {
        6
    } else if c == '7' {
        7
    } else if c == '8' {
        8
    } else if c == '9' {
        9
    } else {
        0
    }
}

/// The value of a sequence of decimal digit characters, most
/// significant first.
pub open spec fn digits_val(s: Seq<char>) -> nat
    decreases s.len(),
{
    if s.len() == 0 {
        0
    } else {
        digits_val(s.drop_last()) * 10 + digit_val(s.last())
    }
}

/// A digit string is worth at least any of its prefixes.
pub proof fn lemma_digits_val_prefix(s: Seq<char>, i: int)
    requires
        0 <= i <= s.len(),
    ensures
        digits_val(s.take(i)) <= digits_val(s),
    decreases s.len(),
{
    if i < s.len() {
        assert(s.drop_last().take(i) =~= s.take(i));
        lemma_digits_val_prefix(s.drop_last(), i);
        assert(digits_val(s.drop_last()) * 10 >= digits_val(s.drop_last()));
    } else {
        assert(s.take(i) =~= s);
    }
}

/// The value of one digit character, executably.
pub(crate) fn digit_to_u32(c: char) -> (r: u32)
    requires
        is_digit(c),
    ensures
        r == digit_val(c),
        r < 10,
{
    if c == '1' {
        1
    } else if c == '2' {
        2
    } else if c == '3' {
        3
    } else if c == '4' {
        4
    } else if c == '5' {
        5
    } else if c == '6' {
        6
    } else if c == '7' {
        7
    } else if c == '8' {
        8
    } else if c == '9' {
        9
    } else {
        0
    }
}

/// Appends the character of one digit value.
fn append_digit(s: &mut String, d: u32)
    requires
        d < 10,
    ensures
        final(s)@ == old(s)@ + seq![digit_char(d as int)],
{
    if d == 0 {
        s.append("0");
        proof { reveal_strlit("0"); assert(final(s)@ =~= old(s)@ + seq![digit_char(d as int)]); }
    } else if d == 1 {
        s.append("1");
        proof { reveal_strlit("1"); assert(final(s)@ =~= old(s)@ + seq![digit_char(d as int)]); }
    } else if d == 2 {
        s.append("2");
        proof { reveal_strlit("2"); assert(final(s)@ =~= old(s)@ + seq![digit_char(d as int)]); }
    } else if d == 3 {
        s.append("3");
        proof { reveal_strlit("3"); assert(final(s)@ =~= old(s)@ + seq![digit_char(d as int)]); }
    } else if d == 4 {
        s.append("4");
        proof { reveal_strlit("4"); assert(final(s)@ =~= old(s)@ + seq![digit_char(d as int)]); }
    } else if d == 5 {
        s.append("5");
        proof { reveal_strlit("5"); assert(final(s)@ =~= old(s)@ + seq![digit_char(d as int)]); }
    } else if d == 6 {
        s.append("6");
        proof { reveal_strlit("6"); assert(final(s)@ =~= old(s)@ + seq![digit_char(d as int)]); }
    } else if d == 7 {
        s.append("7");
        proof { reveal_strlit("7"); assert(final(s)@ =~= old(s)@ + seq![digit_char(d as int)]); }
    } else if d == 8 {
        s.append("8");
        proof { reveal_strlit("8"); assert(final(s)@ =~= old(s)@ + seq![digit_char(d as int)]); }
    } else {
        s.append("9");
        proof { reveal_strlit("9"); assert(final(s)@ =~= old(s)@ + seq![digit_char(d as int)]); }
    }
}

/// Appends the decimal digits of an unsigned value.
fn append_dec_u32(s: &mut String, n: u32)
    ensures
        final(s)@ == old(s)@ + dec_digits(n as nat),
    decreases n,
{
    if n < 10 {
        append_digit(s, n);
    } else {
        append_dec_u32(s, n / 10);
        append_digit(s, n % 10);
        proof {
            assert(final(s)@ =~= old(s)@ + dec_digits(n as nat));
        }
    }
}

/// Appends the decimal text of a signed value.
pub fn append_i32(s: &mut String, n: i32)
    ensures
        final(s)@ == old(s)@ + int_text(n as int),
{
    if n < 0 {
        s.append("-");
        let wide: i64 = -(n as i64);
        let mag: u32 = wide as u32;
        assert(mag == -(n as int));
        append_dec_u32(s, mag);
        proof {
            reveal_strlit("-");
            assert("-"@ =~= seq!['-']);
            assert(final(s)@ =~= old(s)@ + int_text(n as int));
        }
    } else {
        append_dec_u32(s, n as u32);
    }
}

} // verus!
