//! Reading and writing unsigned numbers in decimal.
//!
//! A number is read from an optional `+` followed by one or more of the digits `0` to
//! `9`, and nothing else: no blanks, no `-`, no `_`. It is read as a `u64`, so its
//! value must not exceed `u64::MAX`; zeros may stand in front. A number is written
//! with its digits alone, without zeros in front, and what is written reads back as
//! the same number.

use crate::text::Source;
use vstd::prelude::*;
use vstd::string::*;

verus! {

broadcast use vstd::string::group_string_axioms;

/// Whether `c` is one of the digits `0` to `9`.
pub open spec fn is_digit(c: char) -> bool {
    '0' <= c <= '9'
}

/// The number that the digit `c` stands for; 0 for other characters.
pub open spec fn digit_value(c: char) -> nat {
    if is_digit(c) {
        (c as u32 - '0' as u32) as nat
    } else {
        0
    }
}

/// Whether `s` consists of digits.
pub open spec fn all_digits(s: Seq<char>) -> bool {
    forall|i: int| 0 <= i < s.len() ==> is_digit(#[trigger] s[i])
}

/// The number that the digits `s` stand for, read in base ten.
pub open spec fn digits_value(s: Seq<char>) -> nat
    decreases s.len(),
{
    if s.len() == 0 {
        0
    } else {
        10 * digits_value(s.drop_last()) + digit_value(s.last())
    }
}

/// `s` without the `+` that may stand in front.
pub open spec fn without_sign(s: Seq<char>) -> Seq<char> {
    if s.len() > 0 && s[0] == '+' {
        s.drop_first()
    } else {
        s
    }
}

/// The number that the text `s` stands for, if it is a number that fits in a `u64`.
pub open spec fn decimal_u64(s: Seq<char>) -> Option<u64> {
    let digits = without_sign(s);
    if digits.len() > 0 && all_digits(digits) && digits_value(digits) <= u64::MAX {
        Some(digits_value(digits) as u64)
    } else {
        None
    }
}

/// Reading one more digit multiplies by ten and adds the digit.
pub proof fn lemma_digits_step(s: Seq<char>, k: int)
    requires
        0 <= k < s.len(),
    ensures
        digits_value(s.take(k + 1)) == 10 * digits_value(s.take(k)) + digit_value(s[k]),
{
    assert(s.take(k + 1).drop_last() =~= s.take(k));
}

/// The first digits of a number stand for no more than the number.
pub proof fn lemma_digits_prefix(s: Seq<char>, k: int)
    requires
        0 <= k <= s.len(),
    ensures
        digits_value(s.take(k)) <= digits_value(s),
    decreases s.len() - k,
{
    if k == s.len() {
        assert(s.take(k) =~= s);
    } else {
        lemma_digits_step(s, k);
        lemma_digits_prefix(s, k + 1);
    }
}

/// Reads `text` as a decimal number.
pub fn parse_u64(text: &str) -> (number: Option<u64>)
    ensures
        number == decimal_u64(text@),
{
    let source = Source::new(text);
    let mut m = source.start();
    let ghost s = text@;
    let ghost digits = without_sign(s);
    if source.holds(m, 0x2B) {
        m = source.next(m);
    }
    let ghost shift = m.at();
    if source.peek(m).is_none() {
        return None;
    }
    let mut value: u64 = 0;
    loop
        invariant
            source.wf(),
            source.chars() == s,
            m.within(s),
            shift <= m.at() <= s.len(),
            shift <= 1,
            s == text@,
            digits == without_sign(s),
            digits == s.skip(shift),
            digits.len() == s.len() - shift,
            digits.len() > 0,
            all_digits(digits.take(m.at() - shift)),
            value == digits_value(digits.take(m.at() - shift)),
        decreases s.len() - m.at(),
    {
        let ghost k = m.at() - shift;
        match source.peek(m) {
            None => {
                assert(digits.take(k) =~= digits);
                return Some(value);
            },
            Some(byte) => {
                proof {
                    lemma_digits_step(digits, k);
                    lemma_digits_prefix(digits, k + 1);
                }
                if byte < 0x30 || byte > 0x39 {
                    return None;
                }
                let digit: u64 = (byte - 0x30) as u64;
                let tens = match value.checked_mul(10) {
                    Some(tens) => tens,
                    None => {
                        return None;
                    },
                };
                value = match tens.checked_add(digit) {
                    Some(sum) => sum,
                    None => {
                        return None;
                    },
                };
                assert(all_digits(digits.take(k + 1)));
                m = source.next(m);
            },
        }
    }
}

/// The digit that stands for `d`, a number below ten.
pub open spec fn digit_char(d: nat) -> char {
    ((48 + d) as u8) as char
}

/// The digits of `n` in base ten, without zeros in front; `0` for zero.
pub open spec fn decimal(n: nat) -> Seq<char>
    decreases n,
{
    if n < 10 {
        seq![digit_char(n)]
    } else {
        decimal(n / 10).push(digit_char(n % 10))
    }
}

/// What is written for a number consists of digits and stands for that number.
pub proof fn lemma_decimal_value(n: nat)
    ensures
        decimal(n).len() > 0,
        all_digits(decimal(n)),
        digits_value(decimal(n)) == n,
        without_sign(decimal(n)) == decimal(n),
    decreases n,
{
    reveal_with_fuel(digits_value, 2);
    if n >= 10 {
        lemma_decimal_value(n / 10);
        assert(decimal(n).drop_last() =~= decimal(n / 10));
    }
}

/// What is written for a `u64` reads back as that number.
pub proof fn lemma_decimal_reads_back(n: u64)
    ensures
        decimal_u64(decimal(n as nat)) == Some(n),
{
    lemma_decimal_value(n as nat);
}

/// The one-character text of the digit for `d`.
fn digit_text(d: u64) -> (text: &'static str)
    requires
        d < 10,
    ensures
        text@ == seq![digit_char(d as nat)],
{
    proof {
        reveal_strlit("0");
        reveal_strlit("1");
        reveal_strlit("2");
        reveal_strlit("3");
        reveal_strlit("4");
        reveal_strlit("5");
        reveal_strlit("6");
        reveal_strlit("7");
        reveal_strlit("8");
        reveal_strlit("9");
    }
    let text = if d == 0 {
        "0"
    } else if d == 1 {
        "1"
    } else if d == 2 {
        "2"
    } else if d == 3 {
        "3"
    } else if d == 4 {
        "4"
    } else if d == 5 {
        "5"
    } else if d == 6 {
        "6"
    } else if d == 7 {
        "7"
    } else if d == 8 {
        "8"
    } else {
        "9"
    };
    text
}

/// Writes `n` in decimal at the end of `out`.
pub fn write_decimal(n: u64, out: &mut String)
    ensures
        final(out)@ == old(out)@ + decimal(n as nat),
    decreases n,
{
    if n >= 10 {
        write_decimal(n / 10, out);
    }
    out.append(digit_text(n % 10));
}

/// `n` in decimal.
pub fn decimal_text(n: u64) -> (text: String)
    ensures
        text@ == decimal(n as nat),
{
    let mut text = String::new();
    write_decimal(n, &mut text);
    text
}

} // verus!
