//! Reading numbers from their decimal writing.

use crate::text::{decimal, digit_char};
use vstd::prelude::*;

verus! {

/// Whether `c` is one of the ten decimal digits.
pub open spec fn is_digit(c: char) -> bool {
    '0' <= c <= '9'
}

/// The number that the decimal digit `c` stands for.
pub open spec fn digit_value(c: char) -> nat {
    (c as u32 - '0' as u32) as nat
}

/// Whether `s` holds decimal digits only.
pub open spec fn all_digits(s: Seq<char>) -> bool {
    forall|i: int| 0 <= i < s.len() ==> is_digit(#[trigger] s[i])
}

/// The number that the decimal digits `s` stand for; zero for no digits.
pub open spec fn digits_value(s: Seq<char>) -> nat
    decreases s.len(),
{
    if s.len() == 0 {
        0
    } else {
        digits_value(s.drop_last()) * 10 + digit_value(s.last())
    }
}

/// The number of a decimal digit, or nothing for any other character.
pub fn digit_of(c: char) -> (d: Option<u8>)
    ensures
        match d {
            Some(v) => is_digit(c) && v == digit_value(c) && v < 10,
            None => !is_digit(c),
        },
{
    if '0' <= c && c <= '9' {
        Some((c as u32 - '0' as u32) as u8)
    } else {
        None
    }
}

/// Ten to the power `n`.
pub open spec fn pow10(n: nat) -> nat
    decreases n,
{
    if n == 0 {
        1
    } else {
        10 * pow10((n - 1) as nat)
    }
}

/// A run of `n` digits stands for less than ten to the power `n`.
pub proof fn lemma_digits_value_bound(s: Seq<char>)
    requires
        all_digits(s),
    ensures
        digits_value(s) < pow10(s.len()),
    decreases s.len(),
{
    if s.len() > 0 {
        lemma_digits_value_bound(s.drop_last());
    }
}

/// The character for a digit stands for that digit.
pub proof fn lemma_digit_char_value(d: int)
    requires
        0 <= d < 10,
    ensures
        is_digit(digit_char(d)),
        digit_value(digit_char(d)) == d,
{
}

/// The decimal writing of a number is made of digits that stand for that
/// number.
pub proof fn lemma_decimal_reads_back(n: nat)
    ensures
        all_digits(decimal(n)),
        digits_value(decimal(n)) == n,
        decimal(n).len() > 0,
    decreases n,
{
    lemma_digit_char_value((n % 10) as int);
    if n >= 10 {
        lemma_decimal_reads_back(n / 10);
        assert(decimal(n).drop_last() =~= decimal(n / 10));
    } else {
        assert(decimal(n).drop_last() =~= Seq::<char>::empty());
        assert(digits_value(Seq::<char>::empty()) == 0);
    }
}

/// The digits in front of a longer run of digits stand for no more than the
/// whole run.
pub proof fn lemma_digits_value_grows(s: Seq<char>, count: int)
    requires
        0 <= count <= s.len(),
    ensures
        digits_value(s.take(count)) <= digits_value(s),
    decreases s.len() - count,
{
    if count < s.len() {
        lemma_digits_value_grows(s.drop_last(), count);
        assert(s.drop_last().take(count) =~= s.take(count));
    } else {
        assert(s.take(count) =~= s);
    }
}

/// Reads a run of decimal digits that stands for a number up to `limit`.
/// There is no number for an empty text, for a text with another character in
/// it, or for digits that stand for more than `limit`.
pub fn parse_digits(text: &str, limit: u64) -> (value: Option<u64>)
    ensures
        match value {
            Some(v) => text@.len() > 0 && all_digits(text@) && v == digits_value(text@) && v
                <= limit,
            None => text@.len() == 0 || !all_digits(text@) || digits_value(text@) > limit,
        },
{
    let mut value: u128 = 0;
    let mut index: usize = 0;
    let length = text.unicode_len();
    for c in it: text.chars()
        invariant
            it.seq() == text@,
            length == text@.len(),
            index == it.index(),
            all_digits(text@.take(index as int)),
            value == digits_value(text@.take(index as int)),
            value <= limit,
    {
        assert(text@.take(index + 1).drop_last() =~= text@.take(index as int));
        match digit_of(c) {
            Some(d) => {
                value = value * 10 + d as u128;
                if value > limit as u128 {
                    proof {
                        if all_digits(text@) {
                            lemma_digits_value_grows(text@, index + 1);
                        }
                    }
                    return None;
                }
            },
            None => {
                return None;
            },
        }
        index = index + 1;
    }
    assert(text@.take(index as int) =~= text@);
    if length == 0 {
        None
    } else {
        Some(value as u64)
    }
}

/// The part of `s` that follows its sign: all of `s` where it starts with no
/// sign.
pub open spec fn unsigned_part(s: Seq<char>) -> Seq<char> {
    if s.len() > 0 && (s[0] == '-' || s[0] == '+') {
        s.drop_first()
    } else {
        s
    }
}

/// The integer that `s` is the decimal writing of: an optional `+` or `-` and
/// then one digit or more, nothing before, between or after them.
pub open spec fn parsed_integer(s: Seq<char>) -> Option<int> {
    let digits = unsigned_part(s);
    if digits.len() == 0 || !all_digits(digits) {
        None
    } else if s[0] == '-' {
        Some(-(digits_value(digits) as int))
    } else {
        Some(digits_value(digits) as int)
    }
}

/// The integer that `s` is the decimal writing of, if it fits 64 bits.
pub open spec fn parsed_i64(s: Seq<char>) -> Option<i64> {
    match parsed_integer(s) {
        Some(v) => if i64::MIN <= v <= i64::MAX {
            Some(v as i64)
        } else {
            None
        },
        None => None,
    }
}

/// Reads a decimal integer: an optional sign and then digits only. A text of
/// any other form, or a number that does not fit, gives nothing.
pub fn parse_i64(text: &str) -> (value: Option<i64>)
    ensures
        value == parsed_i64(text@),
{
    let length = text.unicode_len();
    if length == 0 {
        return None;
    }
    let first = text.get_char(0);
    let signed = first == '-' || first == '+';
    let digits = if signed {
        text.substring_char(1, length)
    } else {
        text
    };
    match parse_digits(digits, 0x8000_0000_0000_0000) {
        Some(magnitude) => {
            if first == '-' {
                Some((-(magnitude as i128)) as i64)
            } else if magnitude <= 0x7fff_ffff_ffff_ffff {
                Some(magnitude as i64)
            } else {
                None
            }
        },
        None => None,
    }
}

} // verus!
