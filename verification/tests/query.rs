use pagewalk::query::{follow_flag, list_window, parse_uid, DEFAULT_LIMIT, DEFAULT_OFFSET};

#[test]
fn list_window_falls_back_to_the_defaults() {
    assert_eq!(DEFAULT_LIMIT, 30);
    assert_eq!(DEFAULT_OFFSET, 0);
    assert_eq!(list_window(None, None), (30, 0));
    assert_eq!(list_window(Some(10), None), (10, 0));
    assert_eq!(list_window(None, Some(60)), (30, 60));
    assert_eq!(list_window(Some(5), Some(-1)), (5, -1));
    assert_eq!(list_window(Some(0), Some(0)), (0, 0));
}

#[test]
fn follow_flag_is_one_or_zero() {
    assert_eq!(follow_flag(true), "1");
    assert_eq!(follow_flag(false), "0");
}

#[test]
fn parse_uid_reads_plain_numbers() {
    assert_eq!(parse_uid("0"), Some(0));
    assert_eq!(parse_uid("7"), Some(7));
    assert_eq!(parse_uid("123456789"), Some(123_456_789));
    assert_eq!(parse_uid("+42"), Some(42));
    assert_eq!(parse_uid("-42"), Some(-42));
    assert_eq!(parse_uid("-0"), Some(0));
    assert_eq!(parse_uid("007"), Some(7));
    assert_eq!(parse_uid("000000000000000000000000000000000000000005"), Some(5));
}

#[test]
fn parse_uid_refuses_what_is_no_number() {
    assert_eq!(parse_uid(""), None);
    assert_eq!(parse_uid("-"), None);
    assert_eq!(parse_uid("+"), None);
    assert_eq!(parse_uid("+-1"), None);
    assert_eq!(parse_uid("--1"), None);
    assert_eq!(parse_uid("1-"), None);
    assert_eq!(parse_uid("12a"), None);
    assert_eq!(parse_uid("a12"), None);
    assert_eq!(parse_uid(" 12"), None);
    assert_eq!(parse_uid("12 "), None);
    assert_eq!(parse_uid("1_000"), None);
    assert_eq!(parse_uid("1.0"), None);
    assert_eq!(parse_uid("0x10"), None);
    assert_eq!(parse_uid("１２"), None);
    assert_eq!(parse_uid("用户"), None);
}

#[test]
fn parse_uid_stops_at_the_ends_of_the_range() {
    assert_eq!(parse_uid("9223372036854775807"), Some(i64::MAX));
    assert_eq!(parse_uid("+9223372036854775807"), Some(i64::MAX));
    assert_eq!(parse_uid("9223372036854775808"), None);
    assert_eq!(parse_uid("-9223372036854775808"), Some(i64::MIN));
    assert_eq!(parse_uid("-9223372036854775809"), None);
    assert_eq!(parse_uid("99999999999999999999999999999999999999999999"), None);
    assert_eq!(parse_uid("-99999999999999999999999999999999999999999999"), None);
    assert_eq!(parse_uid("92233720368547758070"), None);
    assert_eq!(parse_uid("9223372036854775808x"), None);
}

#[test]
fn parse_uid_agrees_with_the_standard_parser() {
    let samples = [
        "", "0", "-0", "+0", "1", "-1", "+1", "12345", "-12345", "00012", "-00012", "+", "-",
        "9223372036854775807", "9223372036854775808", "-9223372036854775808",
        "-9223372036854775809", "18446744073709551616", "1e3", " 1", "1 ", "\t1", "1\n", "٣",
        "1٣", "--1", "++1", "+-1", "1+1",
    ];
    for sample in samples {
        assert_eq!(parse_uid(sample), sample.parse::<i64>().ok(), "input {:?}", sample);
    }
}
