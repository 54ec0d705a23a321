use core_staking::decimal::{format_i64, format_u64, parse_i64};

#[test]
fn formats_integers_as_display_does() {
    assert_eq!(format_i64(0), "0");
    assert_eq!(format_i64(7), "7");
    assert_eq!(format_i64(-5), "-5");
    assert_eq!(format_i64(1_700_000_000), "1700000000");
    assert_eq!(format_i64(i64::MAX), i64::MAX.to_string());
    assert_eq!(format_i64(i64::MIN), i64::MIN.to_string());
    assert_eq!(format_u64(0), "0");
    assert_eq!(format_u64(12), "12");
    assert_eq!(format_u64(u64::MAX), u64::MAX.to_string());
}

#[test]
fn parses_signed_decimal_text() {
    assert_eq!(parse_i64("0"), Some(0));
    assert_eq!(parse_i64("1700000000"), Some(1_700_000_000));
    assert_eq!(parse_i64("+42"), Some(42));
    assert_eq!(parse_i64("-42"), Some(-42));
    assert_eq!(parse_i64("-0"), Some(0));
    assert_eq!(parse_i64("007"), Some(7));
    assert_eq!(parse_i64("9223372036854775807"), Some(i64::MAX));
    assert_eq!(parse_i64("-9223372036854775808"), Some(i64::MIN));
}

#[test]
fn refuses_what_str_parse_refuses() {
    for text in [
        "", "-", "+", "+-1", "12a", " 1", "1 ", "1.5", "0x10", "١٢", "9223372036854775808",
        "-9223372036854775809", "99999999999999999999999999",
    ] {
        assert_eq!(parse_i64(text), None, "{text:?}");
        assert!(text.parse::<i64>().is_err(), "{text:?}");
    }
}

#[test]
fn agrees_with_str_parse_on_samples() {
    for text in ["123", "-123", "+0", "000000000000000000000001", "-9223372036854775807"] {
        assert_eq!(parse_i64(text), text.parse::<i64>().ok(), "{text:?}");
    }
}

#[test]
fn written_timestamps_read_back() {
    for v in [0, 1, -1, 86_400, -86_401, 1_700_000_000, i64::MAX, i64::MIN] {
        assert_eq!(parse_i64(&format_i64(v)), Some(v));
    }
}
