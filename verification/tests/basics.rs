use glyphrush::numbers::{decimal_chars, parse_unsigned_chars, zero_padded_chars};
use glyphrush::order::{missing_multiset_items, sort_items, sorted_unique};
use glyphrush::text::{chars_of, string_of, trim_str};

#[test]
fn numbers_parse_and_print() {
    assert_eq!(parse_unsigned_chars(&chars_of("+42"), 100), Some(42));
    assert_eq!(parse_unsigned_chars(&chars_of("101"), 100), None);
    assert_eq!(parse_unsigned_chars(&chars_of(""), 100), None);
    assert_eq!(parse_unsigned_chars(&chars_of("4x"), 100), None);
    assert_eq!(string_of(&decimal_chars(0)), "0");
    assert_eq!(string_of(&decimal_chars(u64::MAX)), u64::MAX.to_string());
    assert_eq!(string_of(&zero_padded_chars(42, 6)), "000042");
    assert_eq!(string_of(&zero_padded_chars(1234567, 6)), "1234567");
}

#[test]
fn multiset_differences_keep_duplicates() {
    let missing = missing_multiset_items(vec![3u64, 1, 3, 2], vec![3u64, 4]);
    assert_eq!(missing, vec![1, 2, 3]);
    assert!(missing_multiset_items(vec![5u64, 5], vec![5u64, 5]).is_empty());
    let words: Vec<String> = vec!["b".to_string(), "a".to_string(), "b".to_string()];
    assert_eq!(sorted_unique(words.clone()), vec!["a".to_string(), "b".to_string()]);
    assert_eq!(sort_items(words), vec!["a".to_string(), "b".to_string(), "b".to_string()]);
}

#[test]
fn trimming_uses_unicode_whitespace() {
    assert_eq!(trim_str("\u{2003} x \n"), "x");
}
