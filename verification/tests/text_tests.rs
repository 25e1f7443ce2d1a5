use nylon::plugin::constants::REMOVE_RESPONSE_HEADER;
use nylon::plugin::session::SessionHandler;
use nylon::text::{
    i64_to_decimal, parse_i64, parse_u64, split_text, substring, u64_to_decimal, usize_to_decimal, utf8_bytes,
};
use nylon::types::context::NylonContext;

#[test]
fn decimal_writing() {
    assert_eq!(u64_to_decimal(0), "0");
    assert_eq!(u64_to_decimal(u64::MAX), "18446744073709551615");
    assert_eq!(usize_to_decimal(4096), "4096");
    assert_eq!(i64_to_decimal(-42), "-42");
    assert_eq!(i64_to_decimal(i64::MIN), "-9223372036854775808");
    assert_eq!(i64_to_decimal(i64::MAX), "9223372036854775807");
}

#[test]
fn integer_parsing_matches_std() {
    for t in ["0", "+7", "-7", "9223372036854775807", "-9223372036854775808", "", "-", "+", "1a", " 1", "9223372036854775808"] {
        assert_eq!(parse_i64(t), t.parse::<i64>().ok(), "{}", t);
    }
    for t in ["0", "+7", "18446744073709551615", "18446744073709551616", "-1", "", "x"] {
        assert_eq!(parse_u64(&t.chars().collect()), t.parse::<u64>().ok(), "{}", t);
    }
}

#[test]
fn splitting_matches_std() {
    for (s, sep) in [("a:b:c", ":"), ("", ":"), (":", ":"), ("abc", "bc"), ("aaa", "aa"), ("x--y--", "--")] {
        let expected: Vec<String> = s.split(sep).map(|p| p.to_string()).collect();
        assert_eq!(split_text(s, sep), expected, "{:?} by {:?}", s, sep);
    }
}

#[test]
fn chars_and_bytes() {
    let v: Vec<char> = "héllo".chars().collect();
    assert_eq!(substring(&v, 1, 3), "él");
    assert_eq!(substring(&v, 0, 5), "héllo");
    assert_eq!(utf8_bytes("é"), vec![0xC3, 0xA9]);
    let mut ctx = NylonContext::new();
    let none = None;
    SessionHandler::process_method(REMOVE_RESPONSE_HEADER, vec![0x68, 0x69], &mut ctx, &none).unwrap();
    SessionHandler::process_method(REMOVE_RESPONSE_HEADER, vec![0x68, 0xFF], &mut ctx, &none).unwrap();
    assert_eq!(ctx.remove_response_header, vec!["hi".to_string(), "h\u{FFFD}".to_string()]);
}
