use mdsite::text::str_eq;
use mdsite::text::trim_str;
use mdsite::text::u32_to_string;

#[test]
fn test_u32_to_string() {
    assert_eq!(u32_to_string(0), "0");
    assert_eq!(u32_to_string(7), "7");
    assert_eq!(u32_to_string(10), "10");
    assert_eq!(u32_to_string(42), "42");
    assert_eq!(u32_to_string(1234567890), "1234567890");
    assert_eq!(u32_to_string(u32::MAX), "4294967295");
}

#[test]
fn test_trim_str() {
    assert_eq!(trim_str(""), "");
    assert_eq!(trim_str("   "), "");
    assert_eq!(trim_str("word"), "word");
    assert_eq!(trim_str("  word  "), "word");
    assert_eq!(trim_str("\t a b \n"), "a b");
}

#[test]
fn test_str_eq() {
    assert!(str_eq("", ""));
    assert!(str_eq("abc", "abc"));
    assert!(!str_eq("abc", "abd"));
    assert!(!str_eq("abc", "abcd"));
    assert!(str_eq("クぜひ", "クぜひ"));
    assert!(!str_eq("クぜひ", "クぜに"));
}
