use replace_bgm::probe::{duration_arguments, parse_duration, parse_seconds};
use replace_bgm::text::{is_white_space_char, trim};

#[test]
fn parse_seconds_reads_to_the_microsecond() {
    assert_eq!(parse_seconds("215.510204"), Some(215_510_204));
    assert_eq!(parse_seconds("30"), Some(30_000_000));
    assert_eq!(parse_seconds("30.000000"), Some(30_000_000));
    assert_eq!(parse_seconds("0.5"), Some(500_000));
    assert_eq!(parse_seconds("0.000001"), Some(1));
    assert_eq!(parse_seconds("59.9"), Some(59_900_000));
    assert_eq!(parse_seconds("0"), Some(0));
    assert_eq!(parse_seconds("007.25"), Some(7_250_000));
}

#[test]
fn parse_seconds_takes_a_point_without_digits_after_it() {
    assert_eq!(parse_seconds("5."), Some(5_000_000));
}

#[test]
fn parse_seconds_drops_places_after_the_sixth() {
    assert_eq!(parse_seconds("1.2345678"), Some(1_234_567));
    assert_eq!(parse_seconds("1.9999999999"), Some(1_999_999));
    assert_eq!(parse_seconds("0.0000009"), Some(0));
}

#[test]
fn parse_seconds_refuses_what_is_no_plain_decimal_number() {
    assert_eq!(parse_seconds(""), None);
    assert_eq!(parse_seconds("."), None);
    assert_eq!(parse_seconds(".5"), None);
    assert_eq!(parse_seconds("N/A"), None);
    assert_eq!(parse_seconds("-1.5"), None);
    assert_eq!(parse_seconds("+1.5"), None);
    assert_eq!(parse_seconds("1.5.2"), None);
    assert_eq!(parse_seconds("1,5"), None);
    assert_eq!(parse_seconds("1e3"), None);
    assert_eq!(parse_seconds("1.5s"), None);
    assert_eq!(parse_seconds("1.1234567x"), None);
    assert_eq!(parse_seconds(" 1.5"), None);
    assert_eq!(parse_seconds("1.5\n"), None);
}

#[test]
fn parse_seconds_stops_where_the_timeline_unit_overflows() {
    assert_eq!(parse_seconds("18446744073709.551615"), Some(u64::MAX));
    assert_eq!(parse_seconds("18446744073709.551616"), None);
    assert_eq!(parse_seconds("18446744073709.5516159"), Some(u64::MAX));
    assert_eq!(parse_seconds("18446744073710"), None);
    assert_eq!(parse_seconds("99999999999999999999999999999999999999"), None);
}

#[test]
fn parse_duration_sets_white_space_aside() {
    assert_eq!(parse_duration("215.510204\n"), Some(215_510_204));
    assert_eq!(parse_duration("  12.5 \r\n"), Some(12_500_000));
    assert_eq!(parse_duration("\t3\t"), Some(3_000_000));
    assert_eq!(parse_duration("7"), Some(7_000_000));
}

#[test]
fn parse_duration_refuses_other_answers() {
    assert_eq!(parse_duration(""), None);
    assert_eq!(parse_duration("\n"), None);
    assert_eq!(parse_duration("N/A\n"), None);
    assert_eq!(parse_duration("1 2\n"), None);
}

#[test]
fn duration_arguments_ask_for_the_duration_only() {
    assert_eq!(
        duration_arguments("/music/a b.mp3"),
        vec![
            "-v",
            "error",
            "-show_entries",
            "format=duration",
            "-of",
            "default=noprint_wrappers=1:nokey=1",
            "/music/a b.mp3"
        ]
    );
}

#[test]
fn white_space_is_what_the_standard_library_calls_white_space() {
    for code in 0..=0x10ffffu32 {
        if let Some(c) = char::from_u32(code) {
            assert_eq!(is_white_space_char(c), c.is_whitespace(), "U+{:04X}", code);
        }
    }
}

#[test]
fn trim_takes_white_space_from_both_ends_only() {
    assert_eq!(trim("  a b  "), "a b");
    assert_eq!(trim("a"), "a");
    assert_eq!(trim("\t\r\n12.5\n"), "12.5");
    assert_eq!(trim(""), "");
    assert_eq!(trim(" \n\t "), "");
    assert_eq!(trim("\u{a0}x\u{3000}y\u{2003}"), "x\u{3000}y");
    assert_eq!(trim("é \u{85}"), "é");
}

#[test]
fn trim_agrees_with_the_standard_library() {
    let samples = [
        "", " ", "a", " a", "a ", " a ", "a b", "\n\na\tb\n\n", "\u{2028}z\u{2029}",
        "\u{feff}a", "\u{200b}a ", " \u{1680}\u{180e} ", "日本 語 ", "\u{c}\u{b}x",
    ];
    for text in samples {
        assert_eq!(trim(text), text.trim(), "{:?}", text);
    }
}
