use clojure_core::reader::lexer::{is_digit, is_macro_terminating, is_token_terminating, is_whitespace};
use clojure_core::reader::source::Source;

#[test]
fn whitespace_includes_comma_and_unicode_spaces() {
    assert!(is_whitespace(' '));
    assert!(is_whitespace(','));
    assert!(is_whitespace('\n'));
    assert!(is_whitespace('\t'));
    assert!(is_whitespace('\u{3000}'));
    assert!(is_whitespace('\u{a0}'));
    assert!(!is_whitespace('a'));
    assert!(!is_whitespace(';'));
}

#[test]
fn digits_are_ascii_only() {
    assert!(is_digit('0'));
    assert!(is_digit('9'));
    assert!(!is_digit('a'));
    assert!(!is_digit('\u{661}'));
}

#[test]
fn macro_and_token_terminators() {
    for c in ['"', ';', '@', '^', '`', '~', '(', ')', '[', ']', '{', '}', '\\'] {
        assert!(is_macro_terminating(c));
        assert!(is_token_terminating(c));
    }
    assert!(!is_macro_terminating('#'));
    assert!(!is_macro_terminating('\''));
    assert!(is_token_terminating(' '));
    assert!(is_token_terminating(','));
    assert!(!is_token_terminating('a'));
    assert!(!is_token_terminating('#'));
}

#[test]
fn source_tracks_line_and_column() {
    let mut s = Source::new("ab\ncd");
    assert_eq!(s.line(), 1);
    assert_eq!(s.column(), 1);
    assert_eq!(s.advance(), Some('a'));
    assert_eq!(s.column(), 2);
    assert_eq!(s.advance(), Some('b'));
    assert_eq!(s.advance(), Some('\n'));
    assert_eq!(s.line(), 2);
    assert_eq!(s.column(), 1);
    assert_eq!(s.peek(), Some('c'));
    assert_eq!(s.peek_second(), Some('d'));
    assert_eq!(s.advance(), Some('c'));
    assert_eq!(s.advance(), Some('d'));
    assert!(s.at_eof());
    assert_eq!(s.advance(), None);
    assert_eq!(s.peek(), None);
}

#[test]
fn source_unread_is_seen_next() {
    let mut s = Source::new("xy");
    assert_eq!(s.advance(), Some('x'));
    s.unread('x');
    assert!(!s.at_eof());
    assert_eq!(s.peek(), Some('x'));
    assert_eq!(s.peek_second(), Some('y'));
    assert_eq!(s.advance(), Some('x'));
    assert_eq!(s.advance(), Some('y'));
    assert!(s.at_eof());
}

#[test]
fn source_unread_keeps_line_and_column_and_replaces_pushback() {
    let mut s = Source::new("a\nbc");
    s.advance();
    s.advance();
    assert_eq!((s.line(), s.column()), (2, 1));
    s.unread('q');
    assert_eq!((s.line(), s.column()), (2, 1));
    assert_eq!(s.peek(), Some('q'));
    s.unread('r');
    assert_eq!(s.peek(), Some('r'));
    assert_eq!(s.advance(), Some('r'));
    assert_eq!(s.advance(), Some('b'));
    assert_eq!((s.line(), s.column()), (2, 3));
}

#[test]
fn source_line_and_column_count_newlines() {
    let mut s = Source::new("ab\n\ncd\ne");
    for _ in 0..6 {
        s.advance();
    }
    // consumed "ab\n\ncd": two newlines, two characters after the last
    assert_eq!((s.line(), s.column()), (3, 3));
}

#[test]
fn source_unread_at_end_of_input() {
    let mut s = Source::new("");
    assert!(s.at_eof());
    s.unread('z');
    assert!(!s.at_eof());
    assert_eq!(s.advance(), Some('z'));
    assert!(s.at_eof());
}

#[test]
fn source_offset_counts_bytes() {
    let mut s = Source::new("é€x");
    assert_eq!(s.offset(), 0);
    s.advance();
    assert_eq!(s.offset(), 2);
    s.advance();
    assert_eq!(s.offset(), 5);
    s.advance();
    assert_eq!(s.offset(), 6);
}
