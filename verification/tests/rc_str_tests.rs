use askama::rc_str::{RcCharIndices, RcChars, RcStr};

#[test]
fn rc_str_basics() {
    let s = RcStr::from_string("héllo world".to_string());
    assert_eq!(s.as_str(), "héllo world");
    assert_eq!(s.len(), 12);
    assert!(!s.is_empty());
    assert!(RcStr::from_string(String::new()).is_empty());
    assert_eq!(s.substr(0, 6).as_str(), "héllo");
    assert_eq!(s.substr(7, 12).as_str(), "world");
    let (a, b) = s.split_at(3);
    assert_eq!((a.as_str(), b.as_str()), ("hé", "llo world"));
}

#[test]
fn rc_str_trim() {
    let s = RcStr::from_string("  xx  ".to_string());
    assert_eq!(s.trim_start_matches(|c| c == ' ').as_str(), "xx  ");
    assert_eq!(s.trim_end_matches(|c| c == ' ').as_str(), "  xx");
    assert_eq!(s.trim_start_matches(|_| true).as_str(), "");
}

#[test]
fn rc_chars_both_ends() {
    let s = RcStr::from_string("abc".to_string());
    let mut c = RcChars::new(&s);
    assert_eq!(c.next(), Some('a'));
    assert_eq!(c.next_back(), Some('c'));
    assert_eq!(c.next(), Some('b'));
    assert_eq!(c.next(), None);
    assert_eq!(c.next_back(), None);
}

#[test]
fn rc_char_indices_are_byte_positions() {
    let s = RcStr::from_string("aé🦀b".to_string());
    let mut c = RcCharIndices::new(&s).unwrap();
    assert_eq!(c.next(), Some((0, 'a')));
    assert_eq!(c.next(), Some((1, 'é')));
    assert_eq!(c.next_back(), Some((7, 'b')));
    assert_eq!(c.next(), Some((3, '🦀')));
    assert_eq!(c.next(), None);
}
