use resp_store::decimal::{push_decimal, push_digits, read_digits, read_signed, read_unsigned};
use resp_store::text::{decimal_string, same_text};

fn digits(n: u64) -> String {
    let mut out = Vec::new();
    push_digits(&mut out, n);
    String::from_utf8(out).unwrap()
}

fn decimal(n: i64) -> String {
    let mut out = Vec::new();
    push_decimal(&mut out, n);
    String::from_utf8(out).unwrap()
}

#[test]
fn test_push_digits() {
    assert_eq!(digits(0), "0");
    assert_eq!(digits(9), "9");
    assert_eq!(digits(10), "10");
    assert_eq!(digits(1234567890), "1234567890");
    assert_eq!(digits(u64::MAX), "18446744073709551615");
}

#[test]
fn test_push_decimal() {
    assert_eq!(decimal(0), "0");
    assert_eq!(decimal(-1), "-1");
    assert_eq!(decimal(100), "100");
    assert_eq!(decimal(i64::MAX), "9223372036854775807");
    assert_eq!(decimal(i64::MIN), "-9223372036854775808");
}

#[test]
fn test_push_appends() {
    let mut out = b"x=".to_vec();
    push_decimal(&mut out, -20);
    push_digits(&mut out, 5);
    assert_eq!(out, b"x=-205".to_vec());
}

#[test]
fn test_read_digits() {
    assert_eq!(read_digits(b"123", 0, 3), Some(123));
    assert_eq!(read_digits(b"a123b", 1, 4), Some(123));
    assert_eq!(read_digits(b"000", 0, 3), Some(0));
    assert_eq!(read_digits(b"", 0, 0), None);
    assert_eq!(read_digits(b"12", 1, 1), None);
    assert_eq!(read_digits(b"+1", 0, 2), None);
    assert_eq!(read_digits(b"1 ", 0, 2), None);
    assert_eq!(
        read_digits(b"340282366920938463463374607431768211455", 0, 39),
        Some(u128::MAX)
    );
    assert_eq!(
        read_digits(b"340282366920938463463374607431768211456", 0, 39),
        None
    );
    assert_eq!(
        read_digits(b"0000000000000000000000000000000000000000000000001", 0, 49),
        Some(1)
    );
}

#[test]
fn test_read_signed() {
    assert_eq!(read_signed(b"0", 0, 1), Some(0));
    assert_eq!(read_signed(b"-0", 0, 2), Some(0));
    assert_eq!(read_signed(b"+7", 0, 2), Some(7));
    assert_eq!(read_signed(b"-7", 0, 2), Some(-7));
    assert_eq!(read_signed(b"-", 0, 1), None);
    assert_eq!(read_signed(b"+", 0, 1), None);
    assert_eq!(read_signed(b"--7", 0, 3), None);
    assert_eq!(read_signed(b"7-", 0, 2), None);
    assert_eq!(
        read_signed(b"170141183460469231731687303715884105727", 0, 39),
        Some(i128::MAX)
    );
    assert_eq!(
        read_signed(b"170141183460469231731687303715884105728", 0, 39),
        None
    );
    assert_eq!(
        read_signed(b"-170141183460469231731687303715884105728", 0, 40),
        Some(i128::MIN)
    );
    assert_eq!(
        read_signed(b"-170141183460469231731687303715884105729", 0, 40),
        None
    );
}

#[test]
fn test_read_unsigned() {
    assert_eq!(read_unsigned(b"42", 0, 2), Some(42));
    assert_eq!(read_unsigned(b"+42", 0, 3), Some(42));
    assert_eq!(read_unsigned(b"-42", 0, 3), None);
    assert_eq!(read_unsigned(b"-0", 0, 2), None);
    assert_eq!(read_unsigned(b"", 0, 0), None);
}

#[test]
fn test_written_numbers_read_back() {
    for n in [0i64, 1, -1, 9, 10, -10, 99, 100, 12345, -98765, i64::MAX, i64::MIN] {
        let text = decimal(n);
        assert_eq!(
            read_signed(text.as_bytes(), 0, text.len()),
            Some(n as i128)
        );
        assert_eq!(text, n.to_string());
    }
}

#[test]
fn test_decimal_string() {
    assert_eq!(decimal_string(0), "0");
    assert_eq!(decimal_string(6379), "6379");
    assert_eq!(decimal_string(u64::MAX), u64::MAX.to_string());
}

#[test]
fn test_same_text() {
    assert!(same_text("PING", "PING"));
    assert!(!same_text("PING", "ping"));
    assert!(same_text("", ""));
}
