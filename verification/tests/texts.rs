use pitchfork::collect::{TextMap, TextSet};
use pitchfork::order::{sort_texts, text_at_most};
use pitchfork::text::{
    bool_text, contains_char, contains_text, int_text, is_whitespace, join, list_contains,
    nat_text, parse_i64, parse_usize, split_on, split_once_on, starts_with, text_eq, trim,
};

fn s(text: &str) -> String {
    text.to_string()
}

#[test]
fn numbers_are_read_back() {
    for n in [0, 1, -1, 10, -10, 12345, i64::MAX, i64::MIN] {
        assert_eq!(int_text(n), n.to_string());
        assert_eq!(parse_i64(&int_text(n)), Some(n));
    }
    assert_eq!(nat_text(u64::MAX), u64::MAX.to_string());
    assert_eq!(parse_i64("007"), Some(7));
    assert_eq!(parse_i64("1 "), None);
    assert_eq!(parse_usize("42"), Some(42));
    assert_eq!(parse_usize("+42"), Some(42));
    assert_eq!(parse_usize("-1"), None);
    assert_eq!(parse_usize("99999999999999999999999"), None);
    assert_eq!(bool_text(true), "true");
    assert_eq!(bool_text(false), "false");
}

#[test]
fn texts_are_taken_apart() {
    assert_eq!(split_once_on("a/b/c", "/"), Some((s("a"), s("b/c"))));
    assert_eq!(split_once_on("abc", "/"), None);
    assert_eq!(split_on("a.b.", '.'), vec!["a", "b", ""]);
    assert_eq!(split_on("", '.'), vec![""]);
    assert_eq!(join(&vec![s("a"), s("b")], ", "), "a, b");
    assert_eq!(join(&vec![], ", "), "");
    assert_eq!(trim(" \t\u{a0}a b\u{2003}\n"), "a b");
    assert_eq!(trim("   "), "");
    assert!(is_whitespace('\u{3000}') && !is_whitespace('\u{200b}'));
}

#[test]
fn every_white_space_is_trimmed() {
    for code in 0..=0x10ffffu32 {
        if let Some(c) = char::from_u32(code) {
            assert_eq!(is_whitespace(c), c.is_whitespace(), "{code:x}");
        }
    }
}

#[test]
fn texts_are_searched() {
    assert!(contains_text("abcabd", "abd"));
    assert!(contains_text("abc", ""));
    assert!(!contains_text("ab", "abc"));
    assert!(starts_with("abc", "ab") && !starts_with("abc", "bc"));
    assert!(contains_char("a.b", '.') && !contains_char("ab", '.'));
    assert!(text_eq("a", "a") && !text_eq("a", "b"));
    assert!(list_contains(&vec![s("a")], "a") && !list_contains(&vec![s("a")], "b"));
}

#[test]
fn texts_are_ordered_as_their_bytes() {
    let mut words = vec![s("b"), s("a"), s("ab"), s(""), s("\u{e9}"), s("Z"), s("a")];
    let sorted = sort_texts(words.clone());
    words.sort();
    assert_eq!(sorted, words);
    assert!(text_at_most("a", "a") && text_at_most("a", "b") && !text_at_most("b", "a"));
}

#[test]
fn sets_hold_texts_once() {
    let mut set = TextSet::new();
    assert!(set.is_empty());
    assert!(set.insert(s("a")) && set.insert(s("b")) && !set.insert(s("a")));
    assert_eq!(set.len(), 2);
    let mut other = TextSet::new();
    other.insert(s("b"));
    other.insert(s("c"));
    assert_eq!(set.common(&other).items(), &vec![s("b")]);
    assert_eq!(set.without(&other).items(), &vec![s("a")]);
    assert_eq!(set.with(&other).len(), 3);
    assert_eq!(set.copy().len(), 2);
}

#[test]
fn maps_find_their_values() {
    let mut map: TextMap<u32> = TextMap::new();
    map.insert(s("a"), 1);
    map.insert(s("b"), 2);
    map.insert(s("a"), 3);
    assert_eq!(map.get("a"), Some(&3));
    assert!(map.contains("b") && !map.contains("c"));
    assert_eq!(map.remove("b"), Some(2));
    assert_eq!(map.remove("b"), None);
    assert_eq!(map.keys(), vec!["a"]);
}
