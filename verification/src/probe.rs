//! What is asked of the media inspector, and how its answer is read.
//!
//! The inspector reports how long a file plays as a decimal number of
//! seconds. The timeline counts whole microseconds, so a duration is read to
//! six places after the point.

use crate::number::{
    all_digits, digit_of, digits_value, is_digit, lemma_digits_value_bound, parse_digits, pow10,
};
use crate::text::{texts, trim, trimmed};
use vstd::prelude::*;

verus! {

/// Where the first `.` of `s` stands; the length of `s` where it has none.
pub open spec fn first_dot(s: Seq<char>) -> int
    decreases s.len(),
{
    if s.len() == 0 || s[0] == '.' {
        0
    } else {
        1 + first_dot(s.drop_first())
    }
}

/// The first `.` of `s` is the one with no `.` in front of it.
pub proof fn lemma_first_dot(s: Seq<char>, dot: int)
    requires
        0 <= dot <= s.len(),
        forall|i: int| 0 <= i < dot ==> s[i] != '.',
        dot < s.len() ==> s[dot] == '.',
    ensures
        first_dot(s) == dot,
    decreases s.len(),
{
    if dot > 0 {
        let rest = s.drop_first();
        lemma_first_dot(rest, dot - 1);
    }
}

/// What precedes the first `.` of `s`.
pub open spec fn whole_part(s: Seq<char>) -> Seq<char> {
    s.take(first_dot(s))
}

/// What follows the first `.` of `s`; nothing where it has none.
pub open spec fn fraction_part(s: Seq<char>) -> Seq<char> {
    if first_dot(s) < s.len() {
        s.skip(first_dot(s) + 1)
    } else {
        Seq::empty()
    }
}

/// The first six characters of `fraction`, with zeros after them where it has
/// fewer.
pub open spec fn six_places(fraction: Seq<char>) -> Seq<char> {
    Seq::new(
        6,
        |i: int|
            if i < fraction.len() {
                fraction[i]
            } else {
                '0'
            },
    )
}

/// The microseconds in the decimal number of seconds `s`: digits, at least
/// one, and then, if anything, a point and digits. Places after the sixth are
/// dropped. A text of any other form stands for no duration.
pub open spec fn parsed_micros(s: Seq<char>) -> Option<nat> {
    let whole = whole_part(s);
    let fraction = fraction_part(s);
    if whole.len() == 0 || !all_digits(whole) || !all_digits(fraction) {
        None
    } else {
        Some(digits_value(whole) * 1_000_000 + digits_value(six_places(fraction)))
    }
}

/// The microseconds in the decimal number of seconds `s`, if they fit 64
/// bits.
pub open spec fn parsed_duration(s: Seq<char>) -> Option<u64> {
    match parsed_micros(s) {
        Some(v) => if v <= u64::MAX {
            Some(v as u64)
        } else {
            None
        },
        None => None,
    }
}

/// Reads the digits after the point as microseconds.
fn parse_fraction(text: &str) -> (micros: Option<u64>)
    ensures
        match micros {
            Some(v) => all_digits(text@) && v == digits_value(six_places(text@)) && v < 1_000_000,
            None => !all_digits(text@),
        },
{
    let ghost places = six_places(text@);
    let length = text.unicode_len();
    let mut value: u64 = 0;
    let mut taken: usize = 0;
    let mut index: usize = 0;
    for c in it: text.chars()
        invariant
            it.seq() == text@,
            length == text@.len(),
            places == six_places(text@),
            index == it.index(),
            all_digits(text@.take(index as int)),
            taken <= 6,
            taken <= index,
            taken < 6 ==> taken == index,
            all_digits(places.take(taken as int)),
            value == digits_value(places.take(taken as int)),
    {
        match digit_of(c) {
            Some(d) => {
                if taken < 6 {
                    proof {
                        lemma_digits_value_bound(places.take(taken as int));
                        reveal_with_fuel(pow10, 7);
                        assert(places.take(taken + 1).drop_last() =~= places.take(taken as int));
                    }
                    value = value * 10 + d as u64;
                    taken = taken + 1;
                }
            },
            None => {
                return None;
            },
        }
        index = index + 1;
    }
    assert(text@.take(index as int) =~= text@);
    while taken < 6
        invariant
            length == text@.len(),
            places == six_places(text@),
            taken <= 6,
            taken < 6 ==> length <= taken,
            all_digits(places.take(taken as int)),
            value == digits_value(places.take(taken as int)),
        decreases 6 - taken,
    {
        proof {
            lemma_digits_value_bound(places.take(taken as int));
            reveal_with_fuel(pow10, 7);
            assert(places.take(taken + 1).drop_last() =~= places.take(taken as int));
        }
        value = value * 10;
        taken = taken + 1;
    }
    proof {
        assert(places.take(6) =~= places);
        lemma_digits_value_bound(places);
        reveal_with_fuel(pow10, 7);
    }
    Some(value)
}

/// Reads a duration written as a decimal number of seconds, such as
/// `215.510204`, and gives it in microseconds. The text must start with a
/// digit and hold digits only, but for one point; digits after the sixth
/// place are checked and dropped. A duration that does not fit 64 bits gives
/// nothing.
pub fn parse_seconds(text: &str) -> (micros: Option<u64>)
    ensures
        micros == parsed_duration(text@),
{
    let length = text.unicode_len();
    let mut dot: usize = length;
    let mut index: usize = 0;
    for c in it: text.chars()
        invariant
            it.seq() == text@,
            length == text@.len(),
            index == it.index(),
            dot == length || dot < index,
            dot < length ==> text@[dot as int] == '.',
            forall|i: int| 0 <= i < index && i < dot ==> text@[i] != '.',
    {
        if c == '.' && dot == length {
            dot = index;
        }
        index = index + 1;
    }
    proof {
        lemma_first_dot(text@, dot as int);
    }
    let whole = text.substring_char(0, dot);
    let fraction = if dot < length {
        text.substring_char(dot + 1, length)
    } else {
        ""
    };
    proof {
        reveal_strlit("");
        assert(fraction@ =~= fraction_part(text@));
    }
    match parse_digits(whole, 18_446_744_073_709) {
        Some(seconds) => match parse_fraction(fraction) {
            Some(rest) => {
                let total = seconds as u128 * 1_000_000 + rest as u128;
                if total <= u64::MAX as u128 {
                    Some(total as u64)
                } else {
                    None
                }
            },
            None => None,
        },
        None => None,
    }
}

/// The arguments of the inspector call that prints how long the file at
/// `path` plays, and nothing else.
pub open spec fn duration_query(path: Seq<char>) -> Seq<Seq<char>> {
    seq![
        "-v"@,
        "error"@,
        "-show_entries"@,
        "format=duration"@,
        "-of"@,
        "default=noprint_wrappers=1:nokey=1"@,
        path,
    ]
}

/// The arguments for the inspector; see `duration_query`.
pub fn duration_arguments(path: &str) -> (arguments: Vec<String>)
    ensures
        texts(arguments@) == duration_query(path@),
{
    let mut arguments: Vec<String> = Vec::new();
    arguments.push(String::from_str("-v"));
    arguments.push(String::from_str("error"));
    arguments.push(String::from_str("-show_entries"));
    arguments.push(String::from_str("format=duration"));
    arguments.push(String::from_str("-of"));
    arguments.push(String::from_str("default=noprint_wrappers=1:nokey=1"));
    arguments.push(String::from_str(path));
    arguments
}

/// Reads what the inspector printed for a file's duration: a decimal number
/// of seconds with white space around it. The result is in microseconds;
/// there is none where the inspector printed anything else.
pub fn parse_duration(output: &str) -> (micros: Option<u64>)
    ensures
        micros == parsed_duration(trimmed(output@)),
{
    parse_seconds(trim(output))
}

} // verus!
