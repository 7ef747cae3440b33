use tinyc::text::{bytes_eq, bytes_to_vec, parse_integer, parse_number};

#[test]
fn byte_strings_compare_by_content() {
    assert!(bytes_eq(b"main", b"main"));
    assert!(bytes_eq(b"", b""));
    assert!(!bytes_eq(b"main", b"mai"));
    assert!(!bytes_eq(b"main", b"maim"));
    assert_eq!(bytes_to_vec(b"abc"), b"abc".to_vec());
}

#[test]
fn numerals_are_read() {
    assert_eq!(parse_number(b"0"), Some(0));
    assert_eq!(parse_number(b"42"), Some(42));
    assert_eq!(parse_number(b"007"), Some(7));
    assert_eq!(parse_number(b"2147483647"), Some(2147483647));
}

#[test]
fn what_is_no_numeral_or_does_not_fit_is_not_read() {
    assert_eq!(parse_number(b""), None);
    assert_eq!(parse_number(b"2147483648"), None);
    assert_eq!(parse_number(b"99999999999999999999999999"), None);
    assert_eq!(parse_number(b"12a"), None);
    assert_eq!(parse_number(b"-1"), None);
    assert_eq!(parse_number(b"+1"), None);
    assert_eq!(parse_number(b" 1"), None);
}

#[test]
fn a_line_of_input_is_a_signed_integer() {
    assert_eq!(parse_integer(b"7"), Some(7));
    assert_eq!(parse_integer(b"7\n"), Some(7));
    assert_eq!(parse_integer(b"  \t-12 \r\n"), Some(-12));
    assert_eq!(parse_integer(b"+5"), Some(5));
    assert_eq!(parse_integer(b"-0"), Some(0));
    assert_eq!(parse_integer(b"2147483647"), Some(i32::MAX));
    assert_eq!(parse_integer(b"-2147483648"), Some(i32::MIN));
}

#[test]
fn a_malformed_line_is_no_integer() {
    assert_eq!(parse_integer(b""), None);
    assert_eq!(parse_integer(b"   "), None);
    assert_eq!(parse_integer(b"-"), None);
    assert_eq!(parse_integer(b"+"), None);
    assert_eq!(parse_integer(b"3 4"), None);
    assert_eq!(parse_integer(b"--3"), None);
    assert_eq!(parse_integer(b"3.0"), None);
    assert_eq!(parse_integer(b"abc"), None);
    assert_eq!(parse_integer(b"2147483648"), None);
    assert_eq!(parse_integer(b"-2147483649"), None);
}

#[test]
fn lines_are_read_as_the_standard_library_reads_them() {
    for line in ["7", " 8 ", "-9\n", "+10", "x", "", "2147483648", "-2147483648", "1 2", "0012"] {
        assert_eq!(parse_integer(line.as_bytes()), line.trim().parse::<i32>().ok(), "{:?}", line);
    }
}
