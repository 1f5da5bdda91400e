use alloy_core::pairs::upsert_pair;
use alloy_core::text::{piece, same_range, split_ranges, to_chars};

fn pair(name: &str, value: &str) -> (String, String) {
    (name.to_string(), value.to_string())
}

#[test]
fn split_ranges_cuts_at_each_separator() {
    let chars: Vec<char> = "a/bc//d".chars().collect();
    assert_eq!(split_ranges(&chars, '/'), vec![(0, 1), (2, 4), (5, 5), (6, 7)]);
}

#[test]
fn split_ranges_edges() {
    assert_eq!(split_ranges(&Vec::new(), '/'), vec![(0, 0)]);
    assert_eq!(split_ranges(&vec!['/'], '/'), vec![(0, 0), (1, 1)]);
    assert_eq!(split_ranges(&vec!['a'], '/'), vec![(0, 1)]);
    assert_eq!(split_ranges(&vec!['/', 'a', '/'], '/'), vec![(0, 0), (1, 2), (3, 3)]);
}

#[test]
fn to_chars_gives_the_characters() {
    assert_eq!(to_chars("a\u{e9}\u{4e16}z"), vec!['a', '\u{e9}', '\u{4e16}', 'z']);
    assert_eq!(to_chars(""), Vec::<char>::new());
}

#[test]
fn piece_counts_characters() {
    assert_eq!(piece("a\u{e9}\u{4e16}z", 1, 3), "\u{e9}\u{4e16}");
    assert_eq!(piece("abc", 0, 3), "abc");
    assert_eq!(piece("abc", 2, 2), "");
    assert_eq!(piece("abc", 3, 3), "");
}

#[test]
fn same_range_compares_text() {
    let a: Vec<char> = "xxabcxx".chars().collect();
    let b: Vec<char> = "abcabd".chars().collect();
    assert!(same_range(&a, 2, 5, &b, 0, 3));
    assert!(!same_range(&a, 2, 5, &b, 3, 6));
    assert!(!same_range(&a, 2, 5, &b, 0, 2));
    assert!(same_range(&a, 1, 1, &b, 4, 4));
}

#[test]
fn upsert_pair_binds_in_place_or_at_the_end() {
    let mut list = vec![pair("a", "1"), pair("b", "2")];
    upsert_pair(&mut list, "c".to_string(), "3".to_string());
    assert_eq!(list, vec![pair("a", "1"), pair("b", "2"), pair("c", "3")]);
    upsert_pair(&mut list, "a".to_string(), "9".to_string());
    assert_eq!(list, vec![pair("a", "9"), pair("b", "2"), pair("c", "3")]);
    let mut empty = Vec::new();
    upsert_pair(&mut empty, "k".to_string(), "v".to_string());
    assert_eq!(empty, vec![pair("k", "v")]);
}

#[test]
fn same_text_compares_strings() {
    assert!(alloy_core::text::same_text("abc", "abc"));
    assert!(alloy_core::text::same_text("", ""));
    assert!(!alloy_core::text::same_text("abc", "abd"));
    assert!(!alloy_core::text::same_text("abc", "ab"));
    assert!(!alloy_core::text::same_text("", "a"));
}
