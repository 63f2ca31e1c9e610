use opc_ua::error::protocol_error;
use opc_ua::text::{decimal_text, hex_text, same_bytes, same_text, signed_decimal_text};
use opc_ua::TransportError;

#[test]
fn numbers_are_written_in_digits() {
    for n in [0u64, 7, 10, 99, 100, 4_294_967_295, u64::MAX] {
        assert_eq!(decimal_text(n), n.to_string());
    }
    for i in [0i64, -1, 42, -42, i64::MAX, i64::MIN] {
        assert_eq!(signed_decimal_text(i), i.to_string());
    }
    assert_eq!(hex_text(0x8034_0000, 8), "80340000");
    assert_eq!(hex_text(1, 8), "00000001");
    assert_eq!(hex_text(0xabcd_ef09, 8), "abcdef09");
}

#[test]
fn texts_and_bytes_are_the_same_by_what_they_hold() {
    assert!(same_text("\u{e5}b", "\u{e5}b"));
    assert!(!same_text("ab", "aB"));
    assert!(!same_text("ab", "abc"));
    assert!(same_bytes(&[1, 2], &[1, 2]));
    assert!(!same_bytes(&[1, 2], &[1, 3]));
    assert!(!same_bytes(&[], &[0]));
}

#[test]
fn an_error_says_whether_to_try_again() {
    assert!(!protocol_error("x").retryable);
    assert_eq!(protocol_error("x").message, "x");
    assert!(TransportError::retryable("y".to_string()).retryable);
    assert!(!TransportError::permanent("z".to_string()).retryable);
}
