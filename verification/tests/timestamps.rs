use replace_bgm::text::{push_decimal, push_zero_padded};
use replace_bgm::time::format_time;

#[test]
fn format_time_zero() {
    assert_eq!(format_time(0), "00:00:00,0000");
}

#[test]
fn format_time_one_hour_one_minute_one_second() {
    assert_eq!(format_time(3_661_000_000), "01:01:01,0000");
}

#[test]
fn format_time_drops_the_fraction() {
    assert_eq!(format_time(59_900_000), "00:00:59,0000");
}

#[test]
fn format_time_just_below_a_minute_and_an_hour() {
    assert_eq!(format_time(59_999_999), "00:00:59,0000");
    assert_eq!(format_time(60_000_000), "00:01:00,0000");
    assert_eq!(format_time(3_599_999_999), "00:59:59,0000");
    assert_eq!(format_time(3_600_000_000), "01:00:00,0000");
}

#[test]
fn format_time_hours_take_the_room_they_need() {
    // 123 hours, 4 minutes, 5.25 seconds
    let time: u128 = 123 * 3_600_000_000 + 4 * 60_000_000 + 5_250_000;
    assert_eq!(format_time(time), "123:04:05,0000");
}

#[test]
fn format_time_last_hour_that_fits_its_field() {
    let time: u128 = 4_294_967_295 * 3_600_000_000 + 59 * 60_000_000 + 59_999_999;
    assert_eq!(format_time(time), "4294967295:59:59,0000");
}

#[test]
fn format_time_beyond_the_hours_field() {
    // One hour more than the field holds: the hour stays at its largest
    // value and the next field takes what is left.
    let time: u128 = 4_294_967_296 * 3_600_000_000;
    assert_eq!(format_time(time), "4294967295:60:00,0000");
    // Far beyond: every field stays at its largest value.
    assert_eq!(
        format_time(u128::MAX),
        "4294967295:4294967295:4294967295,4294967295"
    );
}

#[test]
fn push_decimal_writes_digits_after_what_is_there() {
    let mut out = String::from("n=");
    push_decimal(&mut out, 0);
    out.push(',');
    push_decimal(&mut out, 7);
    out.push(',');
    push_decimal(&mut out, 1_234_567_890);
    out.push(',');
    push_decimal(&mut out, u64::MAX);
    assert_eq!(out, "n=0,7,1234567890,18446744073709551615");
}

#[test]
fn push_zero_padded_pads_short_numbers_only() {
    let mut out = String::new();
    push_zero_padded(&mut out, 5, 2);
    out.push(' ');
    push_zero_padded(&mut out, 0, 4);
    out.push(' ');
    push_zero_padded(&mut out, 123, 2);
    out.push(' ');
    push_zero_padded(&mut out, 42, 0);
    assert_eq!(out, "05 0000 123 42");
}
