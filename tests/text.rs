use finger_blaster::error::decimal_string;
use finger_blaster::text::{chars_of, same_chars, split_words};

fn words(s: &str) -> Vec<String> {
    split_words(&chars_of(s)).iter().map(|w| w.iter().collect()).collect()
}

#[test]
fn split_on_spaces() {
    assert_eq!(words("the quick fox"), vec!["the", "quick", "fox"]);
}

#[test]
fn split_drops_empty_runs() {
    assert_eq!(words("  a \t\n b\r\n\n  cd  "), vec!["a", "b", "cd"]);
}

#[test]
fn split_unicode_whitespace() {
    assert_eq!(words("héllo\u{00A0}wörld\u{3000}越"), vec!["héllo", "wörld", "越"]);
}

#[test]
fn split_empty_and_blank() {
    assert!(words("").is_empty());
    assert!(words(" \t\n").is_empty());
}

#[test]
fn chars_of_multibyte() {
    assert_eq!(chars_of("añ越"), vec!['a', 'ñ', '越']);
}

#[test]
fn same_chars_compares_contents() {
    assert!(same_chars(&vec!['a', 'b'], &vec!['a', 'b']));
    assert!(!same_chars(&vec!['a', 'b'], &vec!['a', 'c']));
    assert!(!same_chars(&vec!['a'], &vec!['a', 'b']));
}

#[test]
fn decimal_writing() {
    assert_eq!(decimal_string(0), "0");
    assert_eq!(decimal_string(7), "7");
    assert_eq!(decimal_string(80), "80");
    assert_eq!(decimal_string(65535), "65535");
}
