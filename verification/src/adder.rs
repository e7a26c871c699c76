//! The trivial single-integer program: an arithmetic expression
//! evaluator, and a compiler that reads one integer numeral and emits
//! the single move that loads it.

use vstd::prelude::*;

use crate::numeral::digit_to_u32;
use crate::numeral::digit_val;
use crate::numeral::digits_val;
use crate::numeral::int_text;
use crate::numeral::is_digit;
use crate::numeral::lemma_digits_val_prefix;
use crate::numeral::append_i32;

verus! {

/// A pure arithmetic expression: a literal, incremented, decremented,
/// or negated.
#[derive(Debug)]
pub enum Expr {
    Num(i32),
    Add1(Box<Expr>),
    Sub1(Box<Expr>),
    Negate(Box<Expr>),
}

/// The mathematical value of an expression.
pub open spec fn eval_val(e: Expr) -> int
    decreases e,
{
    match e {
        Expr::Num(n) => n as int,
        Expr::Add1(e1) => eval_val(*e1) + 1,
        Expr::Sub1(e1) => eval_val(*e1) - 1,
        Expr::Negate(e1) => -eval_val(*e1),
    }
}

/// Whether every intermediate value of an evaluation stays within the
/// machine integer range.
pub open spec fn eval_fits(e: Expr) -> bool
    decreases e,
{
    match e {
        Expr::Num(_) => true,
        Expr::Add1(e1) => eval_fits(*e1) && i32::MIN <= eval_val(*e1) + 1 <= i32::MAX,
        Expr::Sub1(e1) => eval_fits(*e1) && i32::MIN <= eval_val(*e1) - 1 <= i32::MAX,
        Expr::Negate(e1) => eval_fits(*e1) && i32::MIN <= -eval_val(*e1) <= i32::MAX,
    }
}

/// Evaluates an expression.
pub fn eval(e: &Expr) -> (r: i32)
    requires
        eval_fits(*e),
    ensures
        r == eval_val(*e),
    decreases *e,
{
    match e {
        Expr::Num(n) => *n,
        Expr::Add1(e1) => eval(e1) + 1,
        Expr::Sub1(e1) => eval(e1) - 1,
        Expr::Negate(e1) => {
            let v = eval(e1);
            proof {
                assert(v * -1 == -v) by (nonlinear_arith);
            }
            v * -1
        },
    }
}

/// A whitespace character that trimming removes.
pub open spec fn is_space(c: char) -> bool {
    c == ' ' || c == '\t' || c == '\n' || c == '\r'
}

/// The text with leading whitespace removed.
pub open spec fn trim_front(s: Seq<char>) -> Seq<char>
    decreases s.len(),
{
    if s.len() > 0 && is_space(s[0]) {
        trim_front(s.drop_first())
    } else {
        s
    }
}

/// The text with trailing whitespace removed.
pub open spec fn trim_back(s: Seq<char>) -> Seq<char>
    decreases s.len(),
{
    if s.len() > 0 && is_space(s.last()) {
        trim_back(s.drop_last())
    } else {
        s
    }
}

/// The text with whitespace removed from both ends.
pub open spec fn trimmed(s: Seq<char>) -> Seq<char> {
    trim_back(trim_front(s))
}

/// The digits of a numeral, past an optional sign.
pub open spec fn numeral_digits(t: Seq<char>) -> Seq<char> {
    if t.len() > 0 && (t[0] == '-' || t[0] == '+') {
        t.skip(1)
    } else {
        t
    }
}

/// A decimal numeral whose value fits a machine integer: an optional
/// sign, then at least one digit, worth at most the integer range's
/// bound on its side of zero.
pub open spec fn is_i32_numeral(t: Seq<char>) -> bool {
    let ds = numeral_digits(t);
    &&& ds.len() > 0
    &&& forall|k: int| 0 <= k < ds.len() ==> is_digit(#[trigger] ds[k])
    &&& if t.len() > 0 && t[0] == '-' {
        digits_val(ds) <= 0x8000_0000
    } else {
        digits_val(ds) <= 0x7fff_ffff
    }
}

/// The signed value of a numeral.
pub open spec fn numeral_val(t: Seq<char>) -> int {
    if t.len() > 0 && t[0] == '-' {
        -(digits_val(numeral_digits(t)) as int)
    } else {
        digits_val(numeral_digits(t)) as int
    }
}

/// Whether a character is trimmed whitespace, executably.
fn is_space_char(c: char) -> (r: bool)
    ensures
        r == is_space(c),
{
    c == ' ' || c == '\t' || c == '\n' || c == '\r'
}

/// Dropping each leading whitespace character in turn reaches the
/// front-trimmed text.
proof fn lemma_trim_front_skip(s: Seq<char>, lo: int)
    requires
        0 <= lo <= s.len(),
        forall|j: int| 0 <= j < lo ==> is_space(#[trigger] s[j]),
        lo == s.len() || !is_space(s[lo]),
    ensures
        trim_front(s) == s.skip(lo),
    decreases lo,
{
    if lo == 0 {
        assert(s.skip(0) =~= s);
    } else {
        assert(is_space(s[0]));
        assert forall|j: int| 0 <= j < lo - 1 implies is_space(#[trigger] s.drop_first()[j]) by {
            assert(s.drop_first()[j] == s[j + 1]);
        }
        if lo < s.len() {
            assert(s.drop_first()[lo - 1] == s[lo]);
        }
        lemma_trim_front_skip(s.drop_first(), lo - 1);
        assert(s.drop_first().skip(lo - 1) =~= s.skip(lo));
    }
}

/// Dropping each trailing whitespace character in turn reaches the
/// back-trimmed text.
proof fn lemma_trim_back_take(s: Seq<char>, hi: int)
    requires
        0 <= hi <= s.len(),
        forall|j: int| hi <= j < s.len() ==> is_space(#[trigger] s[j]),
        hi == 0 || !is_space(s[hi - 1]),
    ensures
        trim_back(s) == s.take(hi),
    decreases s.len() - hi,
{
    if hi == s.len() {
        assert(s.take(hi) =~= s);
    } else {
        assert(is_space(s.last()));
        lemma_trim_back_take(s.drop_last(), hi);
        assert(s.drop_last().take(hi) =~= s.take(hi));
    }
}

/// Reads one integer program and emits the single move that loads it
/// into the accumulator.
///
/// The input, once trimmed of surrounding whitespace, must be a signed
/// decimal numeral in the machine integer range; the output is the
/// move's text with that value rendered back in canonical decimal.
#[verifier::rlimit(60)]
pub fn compile(program: String) -> (r: String)
    requires
        is_i32_numeral(trimmed(program@)),
    ensures
        r@ == "mov rax, "@ + int_text(numeral_val(trimmed(program@))),
{
    let s = program.as_str();
    let len = s.unicode_len();
    let mut lo: usize = 0;
    while lo < len && is_space_char(s.get_char(lo))
        invariant
            s@ == program@,
            len == s@.len(),
            0 <= lo <= len,
            forall|j: int| 0 <= j < lo ==> is_space(#[trigger] s@[j]),
        decreases len - lo,
    {
        lo = lo + 1;
    }
    let mut hi: usize = len;
    while hi > lo && is_space_char(s.get_char(hi - 1))
        invariant
            s@ == program@,
            len == s@.len(),
            0 <= lo <= hi <= len,
            forall|j: int| 0 <= j < lo ==> is_space(#[trigger] s@[j]),
            lo == len || !is_space(s@[lo as int]),
            forall|j: int| hi <= j < len ==> is_space(#[trigger] s@[j]),
        decreases hi,
    {
        hi = hi - 1;
    }
    let ghost t = trimmed(program@);
    proof {
        lemma_trim_front_skip(s@, lo as int);
        assert forall|j: int| hi - lo <= j < s@.skip(lo as int).len() implies is_space(
            #[trigger] s@.skip(lo as int)[j],
        ) by {
            assert(s@.skip(lo as int)[j] == s@[j + lo]);
        }
        if hi > lo {
            assert(s@.skip(lo as int)[hi - lo - 1] == s@[hi - 1]);
        }
        lemma_trim_back_take(s@.skip(lo as int), hi - lo);
        assert(t =~= s@.subrange(lo as int, hi as int));
        assert(t.len() > 0);
    }
    let first = s.get_char(lo);
    let neg = first == '-';
    let dstart: usize = if first == '-' || first == '+' {
        lo + 1
    } else {
        lo
    };
    let ghost digits = numeral_digits(t);
    proof {
        if first == '-' || first == '+' {
            assert(digits =~= s@.subrange(dstart as int, hi as int));
        } else {
            assert(digits =~= s@.subrange(dstart as int, hi as int));
        }
        assert(digits.len() > 0);
    }
    let mut acc: u32 = 0;
    let mut idx: usize = dstart;
    while idx < hi
        invariant
            s@ == program@,
            len == s@.len(),
            0 <= dstart <= idx <= hi <= len,
            digits == s@.subrange(dstart as int, hi as int),
            digits.len() > 0,
            forall|k: int| 0 <= k < digits.len() ==> is_digit(#[trigger] digits[k]),
            digits_val(digits) <= 0x8000_0000,
            acc == digits_val(digits.take(idx - dstart)),
        decreases hi - idx,
    {
        let c = s.get_char(idx);
        assert(c == digits[idx - dstart]);
        let d = digit_to_u32(c);
        proof {
            let i = idx - dstart;
            assert(digits.take(i + 1).drop_last() =~= digits.take(i));
            assert(digits.take(i + 1).last() == digits[i]);
            assert(digits_val(digits.take(i + 1)) == digits_val(digits.take(i)) * 10 + digit_val(
                digits[i],
            ));
            lemma_digits_val_prefix(digits, i + 1);
        }
        acc = acc * 10 + d;
        idx = idx + 1;
    }
    proof {
        assert(digits.take(hi - dstart) =~= digits);
    }
    let value: i32 = if neg {
        let wide: i64 = -(acc as i64);
        wide as i32
    } else {
        acc as i32
    };
    proof {
        if neg {
            assert(t[0] == '-');
            assert(value as int == numeral_val(t));
        } else {
            assert(!(t.len() > 0 && t[0] == '-'));
            assert(digits_val(digits) <= 0x7fff_ffff);
            assert(value as int == numeral_val(t));
        }
    }
    let mut out = String::from_str("mov rax, ");
    append_i32(&mut out, value);
    out
}

} // verus!
