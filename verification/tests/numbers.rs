use minireq::bytes::{
    bytes_eq, find_byte, is_sorted_before, starts_with, to_lowercase, trim_bytes,
};
use minireq::numbers::{parse_i32, parse_u16, parse_u64, parse_usize, to_decimal};

#[test]
fn decimal_numbers_are_read() {
    assert_eq!(parse_usize(b"0", 10), Some(0));
    assert_eq!(parse_usize(b"0042", 10), Some(42));
    assert_eq!(parse_usize(b"+7", 10), Some(7));
    assert_eq!(parse_usize(b"18446744073709551615", 10), Some(usize::MAX));
    assert_eq!(parse_u64(b"18446744073709551615"), Some(u64::MAX));
    assert_eq!(parse_u16(b"65535"), Some(65535));
}

#[test]
fn what_is_no_number_is_refused() {
    assert_eq!(parse_usize(b"", 10), None);
    assert_eq!(parse_usize(b"+", 10), None);
    assert_eq!(parse_usize(b"-1", 10), None);
    assert_eq!(parse_usize(b"12a", 10), None);
    assert_eq!(parse_usize(b" 12", 10), None);
    assert_eq!(parse_usize(b"18446744073709551616", 10), None);
    assert_eq!(parse_u64(b"18446744073709551616"), None);
    assert_eq!(parse_u16(b"65536"), None);
}

#[test]
fn hexadecimal_numbers_are_read() {
    assert_eq!(parse_usize(b"ff", 16), Some(255));
    assert_eq!(parse_usize(b"FF", 16), Some(255));
    assert_eq!(parse_usize(b"1a2B", 16), Some(0x1a2b));
    assert_eq!(parse_usize(b"g", 16), None);
    assert_eq!(parse_usize(b"0x10", 16), None);
    assert_eq!(parse_usize(b"ffffffffffffffff", 16), Some(usize::MAX));
    assert_eq!(parse_usize(b"10000000000000000", 16), None);
}

#[test]
fn signed_numbers_are_read() {
    assert_eq!(parse_i32(b"200"), Some(200));
    assert_eq!(parse_i32(b"+200"), Some(200));
    assert_eq!(parse_i32(b"-5"), Some(-5));
    assert_eq!(parse_i32(b"-0"), Some(0));
    assert_eq!(parse_i32(b"2147483647"), Some(i32::MAX));
    assert_eq!(parse_i32(b"-2147483648"), Some(i32::MIN));
    assert_eq!(parse_i32(b"2147483648"), None);
    assert_eq!(parse_i32(b"-2147483649"), None);
    assert_eq!(parse_i32(b"-"), None);
    assert_eq!(parse_i32(b""), None);
    assert_eq!(parse_i32(b"2o0"), None);
}

#[test]
fn numbers_are_written_in_decimal() {
    assert_eq!(to_decimal(0), b"0".to_vec());
    assert_eq!(to_decimal(7), b"7".to_vec());
    assert_eq!(to_decimal(1024), b"1024".to_vec());
    assert_eq!(to_decimal(u64::MAX), b"18446744073709551615".to_vec());
}

#[test]
fn written_numbers_read_back() {
    for n in [0u64, 1, 9, 10, 99, 100, 65535, 4294967296, u64::MAX] {
        assert_eq!(parse_u64(&to_decimal(n)), Some(n));
    }
}

#[test]
fn bytes_are_searched_trimmed_and_lowered() {
    assert_eq!(find_byte(b"a:b:c", b':', 0), 1);
    assert_eq!(find_byte(b"a:b:c", b':', 2), 3);
    assert_eq!(find_byte(b"abc", b':', 0), 3);
    assert_eq!(trim_bytes(b" \t chunked\r\n"), b"chunked");
    assert_eq!(trim_bytes(b"   "), b"");
    assert_eq!(trim_bytes(b"a b"), b"a b");
    assert_eq!(to_lowercase(b"Content-TYPE\xc3\x84"), b"content-type\xc3\x84".to_vec());
    assert!(bytes_eq(b"abc", b"abc"));
    assert!(!bytes_eq(b"abc", b"abd"));
    assert!(!bytes_eq(b"abc", b"ab"));
    assert!(starts_with(b"http://x", b"http://"));
    assert!(!starts_with(b"http:/", b"http://"));
}

#[test]
fn byte_strings_sort_byte_by_byte() {
    assert!(is_sorted_before(b"a", b"b"));
    assert!(!is_sorted_before(b"b", b"a"));
    assert!(is_sorted_before(b"ab", b"abc"));
    assert!(!is_sorted_before(b"abc", b"ab"));
    assert!(!is_sorted_before(b"abc", b"abc"));
    assert!(is_sorted_before(b"", b"a"));
    assert!(!is_sorted_before(b"", b""));
    assert!(is_sorted_before(b" content-length", b"content-length"));
    assert!(is_sorted_before(b"content-length", b"content-length "));
    assert!(is_sorted_before(b"a\x7f", b"a\x80"));
}
