use clojure_core::printer::pr_str;
use clojure_core::reader::context::ReaderContext;
use clojure_core::reader::errors::{Coll, ReadError, ReadErrorKind};
use clojure_core::reader::form::Form;
use clojure_core::reader::{read_string_prefix_py, read_string_py, test_parse_char, test_parse_number, test_parse_string};

fn ctx() -> ReaderContext {
    ReaderContext {
        ns_name: "user".to_string(),
        aliases: vec![("str".to_string(), "clojure.string".to_string())],
        var_homes: vec![("map".to_string(), "clojure.core".to_string())],
    }
}

fn read(s: &str) -> Form {
    read_string_py(s, &ctx()).unwrap()
}

fn show(s: &str) -> String {
    pr_str(&read(s), None)
}

fn read_err(s: &str) -> ReadError {
    read_string_py(s, &ctx()).unwrap_err()
}

#[test]
fn reads_integers() {
    assert!(matches!(read("42"), Form::Int(42)));
    assert!(matches!(read("-7"), Form::Int(-7)));
    assert!(matches!(read("+7"), Form::Int(7)));
    assert!(matches!(read("007"), Form::Int(7)));
    assert!(matches!(read("9223372036854775807"), Form::Int(i64::MAX)));
    assert!(matches!(read("-9223372036854775808"), Form::Int(i64::MIN)));
}

#[test]
fn reads_big_integers_in_canonical_form() {
    match read("9223372036854775808") {
        Form::BigInt(d) => assert_eq!(d, "9223372036854775808"),
        other => panic!("unexpected {:?}", other),
    }
    match read("-000099999999999999999999") {
        Form::BigInt(d) => assert_eq!(d, "-99999999999999999999"),
        other => panic!("unexpected {:?}", other),
    }
}

#[test]
fn reads_floats_as_written() {
    match read("1.5") {
        Form::Float(t) => assert_eq!(t, "1.5"),
        other => panic!("unexpected {:?}", other),
    }
    match read("-2.5e-3") {
        Form::Float(t) => assert_eq!(t, "-2.5e-3"),
        other => panic!("unexpected {:?}", other),
    }
    match read("1e3") {
        Form::Float(t) => assert_eq!(t, "1e3"),
        other => panic!("unexpected {:?}", other),
    }
}

#[test]
fn reads_ratios() {
    match read("1/2") {
        Form::Ratio(n, d) => {
            assert_eq!(n, "1");
            assert_eq!(d, "2");
        },
        other => panic!("unexpected {:?}", other),
    }
    match read("-3/4") {
        Form::Ratio(n, d) => {
            assert_eq!(n, "-3");
            assert_eq!(d, "4");
        },
        other => panic!("unexpected {:?}", other),
    }
}

fn ratio_parts(s: &str) -> (String, String) {
    match read(s) {
        Form::Ratio(n, d) => (n, d),
        other => panic!("unexpected {:?}", other),
    }
}

#[test]
fn ratios_read_in_lowest_terms() {
    assert!(matches!(read("4/2"), Form::Int(2)));
    assert!(matches!(read("6/3"), Form::Int(2)));
    assert!(matches!(read("-8/4"), Form::Int(-2)));
    assert!(matches!(read("0/5"), Form::Int(0)));
    assert!(matches!(read("-0/7"), Form::Int(0)));
    assert!(matches!(read("0004/0002"), Form::Int(2)));
    assert_eq!(ratio_parts("2/4"), ("1".to_string(), "2".to_string()));
    assert_eq!(ratio_parts("-6/4"), ("-3".to_string(), "2".to_string()));
    assert_eq!(ratio_parts("+3/6"), ("1".to_string(), "2".to_string()));
    assert_eq!(ratio_parts("010/015"), ("2".to_string(), "3".to_string()));
    assert_eq!(
        ratio_parts("12345678901234567890123/10"),
        ("12345678901234567890123".to_string(), "10".to_string())
    );
    assert_eq!(
        ratio_parts("200000000000000000000/600000000000000000000000"),
        ("1".to_string(), "3000".to_string())
    );
    match read("100000000000000000000/2") {
        Form::BigInt(t) => assert_eq!(t, "50000000000000000000"),
        other => panic!("unexpected {:?}", other),
    }
    match read("-100000000000000000000/4") {
        Form::BigInt(t) => assert_eq!(t, "-25000000000000000000"),
        other => panic!("unexpected {:?}", other),
    }
}

#[test]
fn number_errors() {
    assert!(matches!(read_err("1/0").kind, ReadErrorKind::RatioDivideByZero));
    assert!(matches!(read_err("1/").kind, ReadErrorKind::RatioMissingDigit));
    match read_err("1.e").kind {
        ReadErrorKind::InvalidFloat(t) => assert_eq!(t, "1.e"),
        other => panic!("unexpected {:?}", other),
    }
}

#[test]
fn reads_strings_with_escapes() {
    match read("\"a\\nb\\t\\\"q\\\"\\\\\"") {
        Form::Str(s) => assert_eq!(s, "a\nb\t\"q\"\\"),
        other => panic!("unexpected {:?}", other),
    }
    match read("\"\\u00e9\"") {
        Form::Str(s) => assert_eq!(s, "é"),
        other => panic!("unexpected {:?}", other),
    }
}

#[test]
fn string_errors() {
    assert!(matches!(read_err("\"abc").kind, ReadErrorKind::EofInString));
    assert!(matches!(read_err("\"abc\\").kind, ReadErrorKind::EofInEscape));
    assert!(matches!(read_err("\"\\q\"").kind, ReadErrorKind::UnsupportedEscape('q')));
    assert!(matches!(read_err("\"\\u12xy\"").kind, ReadErrorKind::InvalidUnicodeEscape(_)));
    assert!(matches!(read_err("\"\\ud800\"").kind, ReadErrorKind::InvalidCodepoint(0xd800)));
    assert!(matches!(read_err("\"\\u12").kind, ReadErrorKind::EofInUnicodeEscape));
}

#[test]
fn reads_characters_as_one_char_strings() {
    match read("\\a") {
        Form::Str(s) => assert_eq!(s, "a"),
        other => panic!("unexpected {:?}", other),
    }
    match read("\\newline") {
        Form::Str(s) => assert_eq!(s, "\n"),
        other => panic!("unexpected {:?}", other),
    }
    match read("\\space") {
        Form::Str(s) => assert_eq!(s, " "),
        other => panic!("unexpected {:?}", other),
    }
    match read("\\u0041") {
        Form::Str(s) => assert_eq!(s, "A"),
        other => panic!("unexpected {:?}", other),
    }
    assert!(matches!(read_err("\\bogus").kind, ReadErrorKind::UnsupportedCharLiteral(_)));
}

#[test]
fn reads_nil_booleans_and_symbols() {
    assert!(matches!(read("nil"), Form::Nil));
    assert!(matches!(read("true"), Form::Bool(true)));
    assert!(matches!(read("false"), Form::Bool(false)));
    assert_eq!(show("foo"), "foo");
    assert_eq!(show("clojure.core/map"), "clojure.core/map");
    assert_eq!(show("/"), "/");
    assert!(matches!(read_err("a/").kind, ReadErrorKind::InvalidToken(_)));
}

#[test]
fn reads_keywords() {
    assert_eq!(show(":foo"), ":foo");
    assert_eq!(show(":a/b"), ":a/b");
    assert_eq!(show("::x"), ":user/x");
    assert_eq!(show("::str/join"), ":clojure.string/join");
    assert!(matches!(read_err("::nope/x").kind, ReadErrorKind::UnknownAlias(_, _)));
    assert!(matches!(read_err(":").kind, ReadErrorKind::EmptyKeyword(false)));
    assert!(matches!(read_err(":a/").kind, ReadErrorKind::InvalidKeyword(false, _)));
}

#[test]
fn skips_whitespace_commas_and_comments() {
    assert!(matches!(read("  ,, ; a comment\n 5 ; trailing\n"), Form::Int(5)));
}

#[test]
fn read_string_errors() {
    let e = read_err("   ");
    assert!(matches!(e.kind, ReadErrorKind::Eof));
    assert_eq!((e.line, e.column), (1, 4));
    let e = read_err("1 2");
    assert!(matches!(e.kind, ReadErrorKind::TrailingContent));
    assert_eq!((e.line, e.column), (1, 3));
    assert!(matches!(read_err("(1)").kind, ReadErrorKind::CollectionNotImplemented('(')));
    assert!(matches!(read_err(")").kind, ReadErrorKind::UnmatchedDelimiter(')')));
    assert!(matches!(read_err("'x").kind, ReadErrorKind::ReaderMacroNotImplemented('\'')));
}

#[test]
fn error_positions_follow_lines() {
    let e = read_err("\n\n  \"abc");
    assert!(matches!(e.kind, ReadErrorKind::EofInString));
    assert_eq!((e.line, e.column), (3, 3));
}

#[test]
fn read_prefix_returns_bytes_consumed() {
    let (f, n) = read_string_prefix_py("12 rest", &ctx()).unwrap();
    assert!(matches!(f, Form::Int(12)));
    assert_eq!(n, 3);
    let (f, n) = read_string_prefix_py("\"é\"  ; c\n", &ctx()).unwrap();
    assert!(matches!(f, Form::Str(_)));
    assert_eq!(n, 10);
    let e = read_string_prefix_py("", &ctx()).unwrap_err();
    assert!(matches!(e.kind, ReadErrorKind::Eof));
}

#[test]
fn test_entry_points() {
    assert!(matches!(test_parse_number("12abc").unwrap(), Form::Int(12)));
    match test_parse_string("\"x\" y").unwrap() {
        Form::Str(s) => assert_eq!(s, "x"),
        other => panic!("unexpected {:?}", other),
    }
    match test_parse_char("\\tab").unwrap() {
        Form::Str(s) => assert_eq!(s, "\t"),
        other => panic!("unexpected {:?}", other),
    }
}

#[test]
fn collection_kinds_are_distinct() {
    assert!(Coll::List != Coll::Vector);
}

#[test]
fn error_messages() {
    let e = read_string_py("", &ctx()).unwrap_err();
    assert_eq!(e.message(), "EOF while reading (at line 1, col 1)");
    let e = read_string_py("(1 2", &ctx()).unwrap_err();
    assert_eq!(e.message(), "Collection reader not yet implemented for '(' (at line 1, col 1)");
    assert_eq!(ReadErrorKind::EofInCollection(Coll::List).text(), "EOF while reading list");
    assert_eq!(
        ReadErrorKind::UnmatchedInCollection(']', ')').text(),
        "Unmatched delimiter: expected ']' but got ')'"
    );
    let e = read_string_py("1 2", &ctx()).unwrap_err();
    assert_eq!(e.message(), "Unexpected trailing content after form (at line 1, col 3)");
    assert_eq!(ReadErrorKind::InvalidCodepoint(0xD800).text(), "Invalid unicode codepoint: 0xd800");
    assert_eq!(ReadErrorKind::InvalidCodepoint(0).text(), "Invalid unicode codepoint: 0x0");
    assert_eq!(ReadErrorKind::EmptyKeyword(true).text(), "empty keyword name after '::'");
    assert_eq!(ReadErrorKind::InvalidKeyword(false, "a/".to_string()).text(), "Invalid keyword: :a/");
    assert_eq!(
        ReadErrorKind::UnknownAlias("x/y".to_string(), "x".to_string()).text(),
        "Invalid keyword: ::x/y \u{2014} alias 'x' not found in current namespace"
    );
    assert_eq!(ReadErrorKind::EofInCollection(Coll::ArrayMap).text(), "EOF while reading map");
}
