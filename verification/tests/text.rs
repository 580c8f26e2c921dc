use ebishrimp::text::{chars_of, decimal_string, str_eq};

#[test]
fn decimal_rendering() {
    assert_eq!(decimal_string(0), "0");
    assert_eq!(decimal_string(7), "7");
    assert_eq!(decimal_string(1000), "1000");
    assert_eq!(decimal_string(u128::MAX), u128::MAX.to_string());
}

#[test]
fn char_helpers() {
    assert!(str_eq("abc", "abc"));
    assert!(!str_eq("abc", "abd"));
    assert_eq!(chars_of("aé日"), vec!['a', 'é', '日']);
}
