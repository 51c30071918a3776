use insight::text::{
    contains_str, find_char, parse_u64, parse_usize, push_decimal, push_i32, split_piece,
    trim_end_str, trim_start_str, trim_str,
};

#[test]
fn find_char_from_a_position() {
    assert_eq!(find_char("a:b:c", 0, ':'), Some(1));
    assert_eq!(find_char("a:b:c", 2, ':'), Some(3));
    assert_eq!(find_char("a:b:c", 4, ':'), None);
    assert_eq!(find_char("", 0, ':'), None);
}

#[test]
fn split_piece_counts_from_zero() {
    assert_eq!(split_piece("rtsp://h:1/p", '/', 0), Some("rtsp:"));
    assert_eq!(split_piece("rtsp://h:1/p", '/', 1), Some(""));
    assert_eq!(split_piece("rtsp://h:1/p", '/', 2), Some("h:1"));
    assert_eq!(split_piece("rtsp://h:1/p", '/', 3), Some("p"));
    assert_eq!(split_piece("rtsp://h:1/p", '/', 4), None);
    assert_eq!(split_piece("no-colon", ':', 1), None);
}

#[test]
fn contains_str_finds_substrings() {
    assert!(contains_str("CSeq: 2\r\nSession: 12;timeout=60", "Session"));
    assert!(contains_str("abc", ""));
    assert!(!contains_str("Sessio", "Session"));
    assert!(!contains_str("", "a"));
}

#[test]
fn trimming_white_space() {
    assert_eq!(trim_start_str(" \t 42\r\n"), "42\r\n");
    assert_eq!(trim_end_str(" 42 \r\n"), " 42");
    assert_eq!(trim_str("\u{a0} 42 \u{3000}"), "42");
    assert_eq!(trim_str("   "), "");
}

#[test]
fn parsing_unsigned_numbers() {
    assert_eq!(parse_u64("42"), Some(42));
    assert_eq!(parse_u64("+7"), Some(7));
    assert_eq!(parse_u64("0018"), Some(18));
    assert_eq!(parse_u64("18446744073709551615"), Some(u64::MAX));
    assert_eq!(parse_u64("18446744073709551616"), None);
    assert_eq!(parse_u64(""), None);
    assert_eq!(parse_u64("+"), None);
    assert_eq!(parse_u64("-1"), None);
    assert_eq!(parse_u64("12 "), None);
    assert_eq!(parse_u64("1a"), None);
    assert_eq!(parse_usize("460"), Some(460));
}

#[test]
fn decimal_text() {
    let mut s = String::from("n=");
    push_decimal(&mut s, 0);
    push_decimal(&mut s, 1234567890);
    assert_eq!(s, "n=01234567890");
    let mut t = String::new();
    push_i32(&mut t, -2147483648);
    assert_eq!(t, "-2147483648");
    let mut u = String::new();
    push_i32(&mut u, 7);
    assert_eq!(u, "7");
}
