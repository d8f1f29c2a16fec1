use attractors::text::{chars_of, decimal_string, debug_text, same_text};

#[test]
fn decimal_string_values() {
    assert_eq!(decimal_string(0), "0");
    assert_eq!(decimal_string(10), "10");
    assert_eq!(decimal_string(1_000_000_007), "1000000007");
    assert_eq!(decimal_string(u64::MAX), u64::MAX.to_string());
}

#[test]
fn chars_and_comparison() {
    assert_eq!(chars_of("héllo"), vec!['h', 'é', 'l', 'l', 'o']);
    assert!(same_text("--width", "--width"));
    assert!(!same_text("--width", "--widt"));
    assert!(!same_text("--quiet", "--width"));
}

#[test]
fn debug_text_quotes_and_escapes() {
    assert_eq!(debug_text("abc"), "\"abc\"");
    assert_eq!(debug_text("a\"b"), "\"a\\\"b\"");
    assert_eq!(debug_text("\n"), "\"\\n\"");
}
