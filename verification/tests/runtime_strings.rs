use clojure_core::strings::{
    blank, ends_with, includes, index_of, parse_boolean, parse_long, replace_first, replace_str, split_lines,
    starts_with, str_capitalize, str_lower, str_reverse, str_upper, subs, trim, triml, trimr,
};

#[test]
fn subs_takes_python_style_indices() {
    assert_eq!(subs("hello", 1, Some(3)), "el");
    assert_eq!(subs("hello", -3, None), "llo");
    assert_eq!(subs("hello", 2, Some(-1)), "ll");
    assert_eq!(subs("hello", 4, Some(2)), "");
    assert_eq!(subs("hello", -10, Some(10)), "hello");
    assert_eq!(subs("héllo", 1, Some(2)), "é");
}

#[test]
fn string_searches() {
    assert_eq!(str_reverse("añb"), "bña");
    assert!(starts_with("clojure", "clo"));
    assert!(!starts_with("clo", "clojure"));
    assert!(ends_with("clojure", "jure"));
    assert!(ends_with("x", ""));
    assert!(includes("clojure", "oju"));
    assert!(!includes("clojure", "x"));
    assert_eq!(index_of("héllo", "l"), Some(3));
    assert_eq!(index_of("abc", ""), Some(0));
    assert_eq!(index_of("abc", "d"), None);
}

#[test]
fn replacing_plain_strings() {
    assert_eq!(replace_str("a-b-c", "-", "+"), "a+b+c");
    assert_eq!(replace_str("aaa", "aa", "b"), "ba");
    assert_eq!(replace_str("abc", "", "-"), "-a-b-c-");
    assert_eq!(replace_str("", "", "-"), "-");
    assert_eq!(replace_first("a-b-c", "-", "+"), "a+b-c");
    assert_eq!(replace_first("abc", "x", "+"), "abc");
    assert_eq!(replace_first("abc", "", "-"), "-abc");
}

#[test]
fn whitespace_and_case() {
    assert!(blank(""));
    assert!(blank(" \t\n\u{3000}"));
    assert!(!blank(" a "));
    assert_eq!(trim("  a b \u{a0}"), "a b");
    assert_eq!(triml("  a "), "a ");
    assert_eq!(trimr("  a "), "  a");
    assert_eq!(str_upper("straße"), "STRASSE");
    assert_eq!(str_lower("ABC"), "abc");
    assert_eq!(str_capitalize("hELLO"), "Hello");
    assert_eq!(str_capitalize(""), "");
}

#[test]
fn parsing_longs_and_booleans() {
    assert_eq!(parse_long(" 42 "), Some(42));
    assert_eq!(parse_long("-007"), Some(-7));
    assert_eq!(parse_long("+5"), Some(5));
    assert_eq!(parse_long("-9223372036854775808"), Some(i64::MIN));
    assert_eq!(parse_long("9223372036854775808"), None);
    assert_eq!(parse_long("-"), None);
    assert_eq!(parse_long("1.5"), None);
    assert_eq!(parse_long(""), None);
    assert_eq!(parse_boolean("true"), Some(true));
    assert_eq!(parse_boolean("false"), Some(false));
    assert_eq!(parse_boolean("True"), None);
}

#[test]
fn splitting_lines() {
    assert_eq!(split_lines("a\nb\r\n\nc\n"), vec!["a", "b", "", "c"]);
    assert_eq!(split_lines(""), Vec::<String>::new());
    assert_eq!(split_lines("\n"), vec![""]);
    assert_eq!(split_lines("x\r"), vec!["x"]);
}
