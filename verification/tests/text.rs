use clipsta::number::{
    decimal_of, parse_number, push_hundredths, push_thousandths, NumberError,
};
use clipsta::text::{
    final_line, has_text, initial_line, is_white_space, remove_char, replace_char, strip_end, trim,
    without_prefix,
};

#[test]
fn numbers_are_written_and_read() {
    assert_eq!(decimal_of(0), "0");
    assert_eq!(decimal_of(u64::MAX), "18446744073709551615");
    assert_eq!(parse_number("18446744073709551615", u64::MAX), Ok(u64::MAX));
    assert_eq!(parse_number("+5", 9), Ok(5));
    assert_eq!(parse_number("007", 9), Ok(7));
    assert_eq!(parse_number("", 9), Err(NumberError::Empty));
    assert_eq!(parse_number("+", 9), Err(NumberError::InvalidDigit));
    assert_eq!(parse_number("-1", 9), Err(NumberError::InvalidDigit));
    assert_eq!(parse_number("10", 9), Err(NumberError::TooLarge));
    assert_eq!(parse_number("99x", 9), Err(NumberError::TooLarge));
}

#[test]
fn fractions_are_written() {
    let hundredths = |n: i64| {
        let mut text = String::new();
        push_hundredths(&mut text, n);
        text
    };
    assert_eq!(hundredths(0), "0.00");
    assert_eq!(hundredths(-5), "-0.05");
    assert_eq!(hundredths(1234), "12.34");
    let mut text = String::from("t=");
    push_thousandths(&mut text, 60_045);
    assert_eq!(text, "t=60.045");
}

#[test]
fn white_space_is_trimmed() {
    assert_eq!(trim(" \t a b\u{3000}\r\n"), "a b");
    assert_eq!(trim("\u{200B}a"), "\u{200B}a");
    assert_eq!(trim(" "), "");
}

#[test]
fn parts_of_texts() {
    assert!(has_text("abcabd", "abd"));
    assert!(has_text("abc", ""));
    assert!(!has_text("ab", "abc"));
    assert_eq!(without_prefix("hwnd:1", "hwnd:").as_deref(), Some("1"));
    assert_eq!(without_prefix("hwn", "hwnd:"), None);
    assert_eq!(strip_end("x--".to_string(), "-"), "x");
    assert_eq!(strip_end("x".to_string(), ""), "x");
    assert_eq!(replace_char("a\\b\\", '\\', '/'), "a/b/");
    assert_eq!(remove_char("a-b-", '-'), "ab");
}

#[test]
fn lines_of_texts() {
    for text in ["", "a", "a\n", "a\r\nb", "a\n\n", "\n", "a\r", "\r\n", "a\nb\r\n", "a\n\r"] {
        assert_eq!(final_line(text).as_deref(), text.lines().last(), "{:?}", text);
        assert_eq!(initial_line(text).as_deref(), text.lines().next(), "{:?}", text);
    }
}

#[test]
fn white_space_is_that_of_unicode() {
    for c in '\0'..=char::MAX {
        assert_eq!(is_white_space(c), c.is_whitespace(), "{:?}", c);
    }
}
