use reliable_provider::text::{
    append_decimal, chars_of, contains_lowered, digit_of, is_ascii_digit, join, lower_of,
    parse_unsigned,
};

#[test]
fn chars_of_keeps_every_character_in_order() {
    assert_eq!(chars_of("a\u{e9}\u{1F600}z"), vec!['a', '\u{e9}', '\u{1F600}', 'z']);
    assert_eq!(chars_of(""), Vec::<char>::new());
}

#[test]
fn parse_unsigned_reads_plain_numbers() {
    assert_eq!(parse_unsigned("0", u64::MAX), Some(0));
    assert_eq!(parse_unsigned("7", u64::MAX), Some(7));
    assert_eq!(parse_unsigned("30000", u64::MAX), Some(30000));
    assert_eq!(parse_unsigned("007", u64::MAX), Some(7));
    assert_eq!(parse_unsigned("+12", u64::MAX), Some(12));
}

#[test]
fn parse_unsigned_agrees_with_std_on_the_limits() {
    assert_eq!(parse_unsigned("18446744073709551615", u64::MAX), Some(u64::MAX));
    assert_eq!(parse_unsigned("18446744073709551616", u64::MAX), None);
    assert_eq!(parse_unsigned("184467440737095516150", u64::MAX), None);
    assert_eq!(parse_unsigned("000018446744073709551615", u64::MAX), Some(u64::MAX));
    assert_eq!(parse_unsigned("4294967295", u32::MAX as u64), Some(4294967295));
    assert_eq!(parse_unsigned("4294967296", u32::MAX as u64), None);
    assert_eq!(parse_unsigned("65535", 65535), Some(65535));
    assert_eq!(parse_unsigned("65536", 65535), None);
    assert_eq!(parse_unsigned("0", 0), Some(0));
    assert_eq!(parse_unsigned("1", 0), None);
}

#[test]
fn parse_unsigned_rejects_what_std_rejects() {
    for text in ["", "+", "-", "-1", "++1", "+-1", " 1", "1 ", "1_000", "1.0", "0x10", "abc", "1e3", "\u{661}"] {
        assert_eq!(parse_unsigned(text, u64::MAX), None, "{:?}", text);
        assert!(text.parse::<u64>().is_err(), "{:?}", text);
    }
    for text in ["0", "+0", "42", "+42", "00042", "18446744073709551615"] {
        assert_eq!(parse_unsigned(text, u64::MAX), text.parse::<u64>().ok(), "{:?}", text);
    }
    for text in ["65535", "65536", "+65535", "099999", "0"] {
        assert_eq!(
            parse_unsigned(text, u16::MAX as u64),
            text.parse::<u16>().ok().map(|v| v as u64),
            "{:?}",
            text
        );
    }
}

#[test]
fn append_decimal_writes_the_shortest_notation() {
    for n in [0u64, 1, 9, 10, 11, 99, 100, 101, 4096, 1_000_000, u32::MAX as u64 + 1, u64::MAX] {
        let mut out = String::from("n=");
        append_decimal(&mut out, n);
        assert_eq!(out, format!("n={}", n));
    }
}

#[test]
fn join_puts_the_separator_between_neighbours_only() {
    let none: Vec<String> = vec![];
    assert_eq!(join(&none, ","), "");
    assert_eq!(join(&vec!["a".to_string()], ","), "a");
    assert_eq!(join(&vec!["a".to_string(), "b".to_string()], ","), "a,b");
    assert_eq!(
        join(&vec!["a".to_string(), "".to_string(), "c".to_string()], "\n"),
        "a\n\nc"
    );
    assert_eq!(join(&vec!["".to_string(), "".to_string()], "--"), "--");
    assert_eq!(join(&vec!["x".to_string(), "y".to_string()], ""), "xy");
}

#[test]
fn contains_lowered_ignores_ascii_case_of_the_haystack_only() {
    let hay = chars_of("Request TIMED OUT after 30s");
    assert!(contains_lowered(&hay, &chars_of("timed out")));
    assert!(contains_lowered(&hay, &chars_of("request")));
    assert!(contains_lowered(&hay, &chars_of("30s")));
    assert!(contains_lowered(&hay, &chars_of("")));
    assert!(!contains_lowered(&hay, &chars_of("timeout")));
    // The needle is taken as it is: a capital in it matches nothing.
    assert!(!contains_lowered(&hay, &chars_of("TIMED")));
    assert!(!contains_lowered(&chars_of("ab"), &chars_of("abc")));
    assert!(contains_lowered(&chars_of(""), &chars_of("")));
    assert!(!contains_lowered(&chars_of(""), &chars_of("a")));
    assert!(contains_lowered(&chars_of("aab"), &chars_of("ab")));
}

#[test]
fn lower_of_maps_ascii_capitals_only() {
    assert_eq!(lower_of('A'), 'a');
    assert_eq!(lower_of('Z'), 'z');
    assert_eq!(lower_of('m'), 'm');
    assert_eq!(lower_of('@'), '@');
    assert_eq!(lower_of('['), '[');
    assert_eq!(lower_of('\u{c9}'), '\u{c9}');
    for c in ['A', 'Q', 'z', '0', ' ', '\u{e9}', '\u{1F600}'] {
        assert_eq!(lower_of(c), c.to_ascii_lowercase());
    }
}

#[test]
fn digits_are_the_ten_ascii_digits() {
    for (i, c) in "0123456789".chars().enumerate() {
        assert!(is_ascii_digit(c));
        assert_eq!(digit_of(c), i as u64);
    }
    for c in ['/', ':', 'a', ' ', '\u{661}', '\u{ff11}'] {
        assert!(!is_ascii_digit(c));
    }
}

#[test]
fn append_sized_writes_length_colon_and_part() {
    let mut out = String::from(">");
    reliable_provider::text::append_sized(&mut out, "abc");
    reliable_provider::text::append_sized(&mut out, "");
    reliable_provider::text::append_sized(&mut out, "\u{e9}\u{1F600}");
    reliable_provider::text::append_sized(&mut out, "0123456789");
    assert_eq!(out, ">3:abc0:2:\u{e9}\u{1F600}10:0123456789");
}
