//! Tests of the character-level transforms: reversal, escape
//! interpretation, repetition and joining.

use rpt::count::parse_count;
use rpt::text::{repeat_join, repeat_plain, repl_esc_seq, reverse_string};

#[test]
fn reverse_two_chars() {
    let mut s = String::from("hi");
    reverse_string(&mut s);
    assert_eq!(s, "ih");
}

#[test]
fn reverse_twice_restores() {
    let mut s = String::from("repeat me");
    reverse_string(&mut s);
    reverse_string(&mut s);
    assert_eq!(s, "repeat me");
}

#[test]
fn reverse_unicode_scalars() {
    let mut s = String::from("aéz");
    reverse_string(&mut s);
    assert_eq!(s, "zéa");
}

#[test]
fn escape_newline() {
    let mut s = String::from("a\\nb");
    repl_esc_seq(&mut s);
    assert_eq!(s, "a\nb");
}

#[test]
fn escape_tab() {
    let mut s = String::from("a\\tb");
    repl_esc_seq(&mut s);
    assert_eq!(s, "a\tb");
}

#[test]
fn escape_backslash_pair() {
    let mut s = String::from("a\\\\b");
    repl_esc_seq(&mut s);
    assert_eq!(s, "a\\b");
}

#[test]
fn escape_consumes_pair_then_resumes() {
    // The first backslash escapes the second; the `n` after them is a
    // plain character, not a fresh escape.
    let mut s = String::from("\\\\n");
    repl_esc_seq(&mut s);
    assert_eq!(s, "\\n");
}

#[test]
fn escape_keeps_unknown_sequences() {
    let mut s = String::from("a\\xb\\");
    repl_esc_seq(&mut s);
    assert_eq!(s, "a\\xb\\");
}

#[test]
fn escape_without_backslash_changes_nothing() {
    let mut s = String::from("plain text");
    repl_esc_seq(&mut s);
    assert_eq!(s, "plain text");
    repl_esc_seq(&mut s);
    assert_eq!(s, "plain text");
}

#[test]
fn repeat_plain_counts_length() {
    let r = repeat_plain("ab", 4);
    assert_eq!(r, "abababab");
    assert_eq!(r.chars().count(), 4 * 2);
}

#[test]
fn repeat_plain_zero_is_empty() {
    assert_eq!(repeat_plain("ab", 0), "");
}

#[test]
fn repeat_join_three_copies() {
    assert_eq!(repeat_join("ab", "-", 3), "ab-ab-ab");
}

#[test]
fn repeat_join_one_copy_has_no_separator() {
    assert_eq!(repeat_join("ab", "-", 1), "ab");
}

#[test]
fn repeat_join_zero_is_empty() {
    assert_eq!(repeat_join("ab", "-", 0), "");
}

#[test]
fn parse_count_plain() {
    assert_eq!(parse_count("3"), Some(3));
    assert_eq!(parse_count("0"), Some(0));
    assert_eq!(parse_count("+42"), Some(42));
    assert_eq!(parse_count("-7"), Some(-7));
}

#[test]
fn parse_count_bounds() {
    assert_eq!(parse_count("2147483647"), Some(i32::MAX));
    assert_eq!(parse_count("-2147483648"), Some(i32::MIN));
    assert_eq!(parse_count("2147483648"), None);
    assert_eq!(parse_count("-2147483649"), None);
    assert_eq!(parse_count("99999999999999999999"), None);
}

#[test]
fn parse_count_rejects_malformed() {
    assert_eq!(parse_count(""), None);
    assert_eq!(parse_count("+"), None);
    assert_eq!(parse_count("-"), None);
    assert_eq!(parse_count("x"), None);
    assert_eq!(parse_count("3.5"), None);
    assert_eq!(parse_count("--3"), None);
    assert_eq!(parse_count("3 "), None);
}
