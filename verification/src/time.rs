//! Timeline positions and the `HH:MM:SS,FFFF` timestamps written into
//! subtitle cues.

use crate::text::{push_zero_padded, zero_padded};
use vstd::arithmetic::div_mod::lemma_fundamental_div_mod_converse;
use vstd::prelude::*;

verus! {

/// Microseconds in one second.
pub const MICROS_PER_SECOND: u64 = 1_000_000;

/// Microseconds in one minute.
pub const MICROS_PER_MINUTE: u64 = 60_000_000;

/// Microseconds in one hour.
pub const MICROS_PER_HOUR: u64 = 3_600_000_000;

/// The largest value that a field of a timestamp can hold.
pub const FIELD_MAX: u32 = 0xffff_ffff;

/// The first timeline position whose hour count no longer fits a timestamp
/// field: `(FIELD_MAX + 1)` hours.
pub open spec fn hours_limit() -> nat {
    4_294_967_296 * 3_600_000_000
}

/// A field of a timestamp holds at most `FIELD_MAX`: a larger count stays at
/// that value, and one below zero at zero.
pub open spec fn field(count: int) -> nat {
    if count < 0 {
        0
    } else if count > FIELD_MAX {
        FIELD_MAX as nat
    } else {
        count as nat
    }
}

/// Whole hours in `time`.
pub open spec fn hours_field(time: nat) -> nat {
    field(time as int / 3_600_000_000)
}

/// Whole minutes in what the hours leave of `time`.
pub open spec fn minutes_field(time: nat) -> nat {
    field((time - hours_field(time) * 3_600_000_000) / 60_000_000)
}

/// Whole seconds in what hours and minutes leave of `time`.
pub open spec fn seconds_field(time: nat) -> nat {
    field(
        (time - hours_field(time) * 3_600_000_000 - minutes_field(time) * 60_000_000) / 1_000_000,
    )
}

/// Whole seconds in what hours, minutes and seconds leave of `time`. This is
/// the fourth field of a timestamp: a count of seconds, not of milliseconds,
/// and so zero for every time whose hours fit their field.
pub open spec fn subsecond_field(time: nat) -> nat {
    field(
        (time - hours_field(time) * 3_600_000_000 - minutes_field(time) * 60_000_000
            - seconds_field(time) * 1_000_000) / 1_000_000,
    )
}

/// The timestamp of the timeline position `time`: hours, minutes and seconds
/// zero-padded to two digits, the fourth field to four.
pub open spec fn timestamp(time: nat) -> Seq<char> {
    zero_padded(hours_field(time), 2) + seq![':'] + zero_padded(minutes_field(time), 2) + seq![':']
        + zero_padded(seconds_field(time), 2) + seq![','] + zero_padded(subsecond_field(time), 4)
}

/// For every time below `hours_limit()` the fields of a timestamp are the
/// usual clock reading, and the fourth field is zero.
pub proof fn lemma_fields_of_clock_time(time: nat)
    requires
        time < hours_limit(),
    ensures
        hours_field(time) == time / 3_600_000_000,
        minutes_field(time) == (time / 60_000_000) % 60,
        seconds_field(time) == (time / 1_000_000) % 60,
        subsecond_field(time) == 0,
        timestamp(time) == zero_padded(time / 3_600_000_000, 2) + seq![':'] + zero_padded(
            (time / 60_000_000) % 60,
            2,
        ) + seq![':'] + zero_padded((time / 1_000_000) % 60, 2) + seq![','] + seq![
            '0',
            '0',
            '0',
            '0',
        ],
{
    lemma_clock_split(time as int);
    reveal_with_fuel(crate::text::decimal, 2);
}

/// A count of microseconds splits into hours, minutes below sixty, seconds
/// below sixty and less than one second.
proof fn lemma_clock_split(t: int)
    requires
        0 <= t,
    ensures
        0 <= t / 3_600_000_000,
        t < 4_294_967_296 * 3_600_000_000 ==> t / 3_600_000_000 <= 0xffff_ffff,
        (t - (t / 3_600_000_000) * 3_600_000_000) / 60_000_000 == (t / 60_000_000) % 60,
        (t - (t / 3_600_000_000) * 3_600_000_000 - ((t / 60_000_000) % 60) * 60_000_000)
            / 1_000_000 == (t / 1_000_000) % 60,
        0 <= t - (t / 3_600_000_000) * 3_600_000_000 - ((t / 60_000_000) % 60) * 60_000_000 - ((t
            / 1_000_000) % 60) * 1_000_000 < 1_000_000,
{
    let whole_seconds = t / 1_000_000;
    let micros = t % 1_000_000;
    let whole_minutes = whole_seconds / 60;
    let s = whole_seconds % 60;
    let h = whole_minutes / 60;
    let m = whole_minutes % 60;
    assert(t == whole_seconds * 1_000_000 + micros);
    assert(whole_seconds == whole_minutes * 60 + s);
    assert(whole_minutes == h * 60 + m);
    assert(t == whole_minutes * 60_000_000 + (s * 1_000_000 + micros));
    lemma_fundamental_div_mod_converse(t, 60_000_000, whole_minutes, s * 1_000_000 + micros);
    assert(t == h * 3_600_000_000 + (m * 60_000_000 + s * 1_000_000 + micros));
    lemma_fundamental_div_mod_converse(
        t,
        3_600_000_000,
        h,
        m * 60_000_000 + s * 1_000_000 + micros,
    );
    let after_hours = t - h * 3_600_000_000;
    assert(after_hours == m * 60_000_000 + (s * 1_000_000 + micros));
    lemma_fundamental_div_mod_converse(after_hours, 60_000_000, m, s * 1_000_000 + micros);
    let after_minutes = after_hours - m * 60_000_000;
    assert(after_minutes == s * 1_000_000 + micros);
    lemma_fundamental_div_mod_converse(after_minutes, 1_000_000, s, micros);
}

/// What is left of `time` after `count` units of `unit` microseconds, and the
/// field that holds `count`.
fn take_field(time: u128, unit: u64) -> (r: (u32, u128))
    requires
        unit > 0,
    ensures
        r.0 == field(time as int / unit as int),
        r.1 == time - r.0 * unit,
{
    let count = time / (unit as u128);
    assert(count * unit <= time) by (nonlinear_arith)
        requires
            count == time / (unit as u128),
            unit > 0,
    ;
    if count > FIELD_MAX as u128 {
        assert(FIELD_MAX * unit <= count * unit) by (nonlinear_arith)
            requires
                FIELD_MAX < count,
                unit > 0,
        ;
        (FIELD_MAX, time - (FIELD_MAX as u128) * (unit as u128))
    } else {
        (count as u32, time - count * (unit as u128))
    }
}

/// Renders the timeline position `time`, in microseconds, as `HH:MM:SS,FFFF`.
///
/// The fourth field counts the whole seconds that are left once hours,
/// minutes and seconds are taken out, so it reads `0000` for every time below
/// `hours_limit()`.
pub fn format_time(time: u128) -> (text: String)
    ensures
        text@ == timestamp(time as nat),
{
    let (hours, after_hours) = take_field(time, MICROS_PER_HOUR);
    let (minutes, after_minutes) = take_field(after_hours, MICROS_PER_MINUTE);
    let (seconds, after_seconds) = take_field(after_minutes, MICROS_PER_SECOND);
    let (subsecond, _) = take_field(after_seconds, MICROS_PER_SECOND);
    let mut text = String::new();
    proof {
        reveal_strlit(":");
        reveal_strlit(",");
    }
    push_zero_padded(&mut text, hours as u64, 2);
    text.append(":");
    push_zero_padded(&mut text, minutes as u64, 2);
    text.append(":");
    push_zero_padded(&mut text, seconds as u64, 2);
    text.append(",");
    push_zero_padded(&mut text, subsecond as u64, 4);
    text
}

} // verus!
