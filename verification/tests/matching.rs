//! The string primitives the lookups and the tag listing are built on.

use djlib::strings::{str_contains_ci, str_eq, str_le};

#[test]
fn contains_ignores_ascii_case() {
    assert!(str_contains_ci("7A - Sunset Boulevard [918205852].aiff", "[918205852]"));
    assert!(str_contains_ci("/Users/DJ/MUSIC/Sets", "music"));
    assert!(str_contains_ci("anything", ""));
    assert!(!str_contains_ci("short", "much longer pattern"));
    assert!(!str_contains_ci("abcdef", "acb"));
}

#[test]
fn lexicographic_order_on_names() {
    assert!(str_le("ambient", "eatmos"));
    assert!(str_le("eatmos", "eatmos"));
    assert!(!str_le("vocals", "eatmos"));
    assert!(str_le("", "a"));
    assert!(str_le("abc", "abcd"));
    assert!(!str_le("abcd", "abc"));
}

#[test]
fn string_equality_is_exact() {
    assert!(str_eq("eatmos", "eatmos"));
    assert!(!str_eq("eatmos", "Eatmos"));
    assert!(!str_eq("eatmos", "eatmo"));
}
