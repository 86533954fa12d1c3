use clojure_core::printer::{escape_string, pr_str, pr_str_ctx, print_str, PrintCtx};
use clojure_core::reader::context::ReaderContext;
use clojure_core::reader::form::{Form, Sym};
use clojure_core::reader::read_string_py;

fn sym(ns: Option<&str>, name: &str) -> Sym {
    Sym { ns: ns.map(|s| s.to_string()), name: name.to_string() }
}

fn ints(n: i64) -> Vec<Form> {
    (1..=n).map(Form::Int).collect()
}

#[test]
fn prints_atoms() {
    assert_eq!(pr_str(&Form::Nil, None), "nil");
    assert_eq!(pr_str(&Form::Bool(true), None), "true");
    assert_eq!(pr_str(&Form::Bool(false), None), "false");
    assert_eq!(pr_str(&Form::Int(-42), None), "-42");
    assert_eq!(pr_str(&Form::Int(i64::MIN), None), "-9223372036854775808");
    assert_eq!(pr_str(&Form::BigInt("123456789012345678901".to_string()), None), "123456789012345678901");
    assert_eq!(pr_str(&Form::Float("1.0".to_string()), None), "1.0");
    assert_eq!(pr_str(&Form::Float("##NaN".to_string()), None), "##NaN");
    assert_eq!(pr_str(&Form::Ratio("1".to_string(), "3".to_string()), None), "1/3");
    assert_eq!(pr_str(&Form::Symbol(sym(Some("a.b"), "c")), None), "a.b/c");
    assert_eq!(pr_str(&Form::Keyword(sym(None, "k")), None), ":k");
    assert_eq!(pr_str(&Form::Keyword(sym(Some("n"), "k")), None), ":n/k");
    assert_eq!(pr_str(&Form::Regex("a+".to_string()), None), "#\"a+\"");
    assert_eq!(pr_str(&Form::Host("#'user/x".to_string()), None), "#'user/x");
}

#[test]
fn strings_readable_and_raw() {
    let s = Form::Str("a\"b\\c\nd\te\rf".to_string());
    assert_eq!(pr_str(&s, None), "\"a\\\"b\\\\c\\nd\\te\\rf\"");
    assert_eq!(print_str(&s, None), "a\"b\\c\nd\te\rf");
    assert_eq!(escape_string("plain é"), "\"plain é\"");
}

#[test]
fn collections() {
    assert_eq!(pr_str(&Form::List(ints(3)), None), "(1 2 3)");
    assert_eq!(pr_str(&Form::List(vec![]), None), "()");
    assert_eq!(pr_str(&Form::Vector(ints(2)), None), "[1 2]");
    assert_eq!(pr_str(&Form::HashSet(ints(2)), None), "#{1 2}");
    let m = Form::ArrayMap(vec![
        Form::Keyword(sym(None, "a")),
        Form::Int(1),
        Form::Keyword(sym(None, "b")),
        Form::Str("x".to_string()),
    ]);
    assert_eq!(pr_str(&m, None), "{:a 1, :b \"x\"}");
    assert_eq!(print_str(&m, None), "{:a 1, :b x}");
    assert_eq!(pr_str(&Form::ArrayMap(vec![]), None), "{}");
    let nested = Form::Vector(vec![Form::List(ints(1)), Form::Vector(vec![])]);
    assert_eq!(pr_str(&nested, None), "[(1) []]");
}

#[test]
fn print_length_cuts_collections() {
    assert_eq!(pr_str(&Form::List(ints(5)), Some(2)), "(1 2 ...)");
    assert_eq!(pr_str(&Form::Vector(ints(2)), Some(2)), "[1 2]");
    assert_eq!(pr_str(&Form::Vector(ints(3)), Some(0)), "[...]");
    assert_eq!(pr_str(&Form::HashSet(ints(3)), Some(-1)), "#{...}");
    let m = Form::ArrayMap(vec![Form::Int(1), Form::Int(2), Form::Int(3), Form::Int(4)]);
    assert_eq!(pr_str(&m, Some(1)), "{1 2, ...}");
    let nested = Form::List(vec![Form::Vector(ints(3)), Form::Int(9), Form::Int(10)]);
    assert_eq!(pr_str(&nested, Some(2)), "([1 2 ...] 9 ...)");
    let ctx = PrintCtx { length: Some(1), level: None, meta: false, ns_maps: false, readable: false, depth: 0 };
    assert_eq!(pr_str_ctx(&Form::List(vec![Form::Str("s".to_string()), Form::Nil]), &ctx), "(s ...)");
}

#[test]
fn metadata_is_not_printed_by_default() {
    let m = Form::Meta(
        Box::new(Form::ArrayMap(vec![Form::Keyword(sym(None, "tag")), Form::Symbol(sym(None, "String"))])),
        Box::new(Form::Symbol(sym(None, "x"))),
    );
    assert_eq!(pr_str(&m, None), "x");
}

#[test]
fn printed_strings_and_integers_read_back() {
    let ctx = ReaderContext { ns_name: "user".to_string(), aliases: vec![], var_homes: vec![] };
    for text in ["", "plain", "quote \" and \\ back", "lines\n\ttabs\r"] {
        let printed = pr_str(&Form::Str(text.to_string()), None);
        match read_string_py(&printed, &ctx).unwrap() {
            Form::Str(s) => assert_eq!(s, text),
            other => panic!("unexpected {:?}", other),
        }
    }
    for n in [0i64, 7, -7, i64::MAX, i64::MIN] {
        let printed = pr_str(&Form::Int(n), None);
        assert!(matches!(read_string_py(&printed, &ctx).unwrap(), Form::Int(m) if m == n));
    }
}

#[test]
fn keywords_and_symbols_read_back() {
    let ctx = ReaderContext { ns_name: "user".to_string(), aliases: vec![], var_homes: vec![] };
    for (ns, name) in [(None, "a"), (Some("my.ns"), "b-c"), (Some("x"), "y/z"), (None, "a?b!")] {
        let kw = Form::Keyword(sym(ns, name));
        let text = pr_str(&kw, None);
        match read_string_py(&text, &ctx).unwrap() {
            Form::Keyword(s) => {
                assert_eq!(s.ns.as_deref(), ns);
                assert_eq!(s.name, name);
            }
            other => panic!("read back {:?}", other),
        }
    }
    for (ns, name) in [(None, "foo"), (Some("clojure.core"), "map"), (None, "/"), (Some("a"), "b/c"), (None, "-x")] {
        let sy = Form::Symbol(sym(ns, name));
        let text = pr_str(&sy, None);
        match read_string_py(&text, &ctx).unwrap() {
            Form::Symbol(s) => {
                assert_eq!(s.ns.as_deref(), ns);
                assert_eq!(s.name, name);
            }
            other => panic!("read back {:?}", other),
        }
    }
    // `nil` as a symbol name does not read back as a symbol
    assert!(matches!(read_string_py(&pr_str(&Form::Symbol(sym(None, "nil")), None), &ctx).unwrap(), Form::Nil));
}

fn ctx_with(level: Option<i64>, meta: bool, ns_maps: bool) -> PrintCtx {
    PrintCtx { length: None, level, meta, ns_maps, readable: true, depth: 0 }
}

#[test]
fn print_level_cuts_deep_collections() {
    let one = Form::Vector(vec![Form::Int(1)]);
    assert_eq!(pr_str_ctx(&one, &ctx_with(Some(0), false, false)), "#");
    assert_eq!(pr_str_ctx(&one, &ctx_with(Some(1), false, false)), "[1]");
    assert_eq!(pr_str_ctx(&Form::List(vec![]), &ctx_with(Some(-3), false, false)), "#");
    let nested = Form::List(vec![Form::Int(1), Form::Vector(vec![Form::Vector(ints(2))]), Form::Str("s".to_string())]);
    assert_eq!(pr_str_ctx(&nested, &ctx_with(Some(1), false, false)), "(1 # \"s\")");
    assert_eq!(pr_str_ctx(&nested, &ctx_with(Some(2), false, false)), "(1 [#] \"s\")");
    assert_eq!(pr_str_ctx(&nested, &ctx_with(None, false, false)), "(1 [[1 2]] \"s\")");
    // a value printed from inside a collection starts deeper
    let deeper = PrintCtx { length: None, level: Some(2), meta: false, ns_maps: false, readable: true, depth: 2 };
    assert_eq!(pr_str_ctx(&one, &deeper), "#");
    // atoms are never cut
    assert_eq!(pr_str_ctx(&Form::Int(5), &ctx_with(Some(0), false, false)), "5");
}

#[test]
fn print_meta_shows_metadata() {
    let m = Form::Meta(
        Box::new(Form::ArrayMap(vec![Form::Keyword(sym(None, "tag")), Form::Symbol(sym(None, "String"))])),
        Box::new(Form::Symbol(sym(None, "x"))),
    );
    assert_eq!(pr_str_ctx(&m, &ctx_with(None, true, false)), "^{:tag String} x");
    assert_eq!(pr_str_ctx(&m, &ctx_with(None, false, false)), "x");
}

#[test]
fn print_namespace_maps_lifts_a_shared_namespace() {
    let m = Form::ArrayMap(vec![
        Form::Keyword(sym(Some("a"), "x")),
        Form::Int(1),
        Form::Keyword(sym(Some("a"), "y")),
        Form::Int(2),
    ]);
    assert_eq!(pr_str_ctx(&m, &ctx_with(None, false, true)), "#:a{:x 1, :y 2}");
    assert_eq!(pr_str_ctx(&m, &ctx_with(None, false, false)), "{:a/x 1, :a/y 2}");
    let mixed = Form::ArrayMap(vec![
        Form::Keyword(sym(Some("a"), "x")),
        Form::Int(1),
        Form::Keyword(sym(Some("b"), "y")),
        Form::Int(2),
    ]);
    assert_eq!(pr_str_ctx(&mixed, &ctx_with(None, false, true)), "{:a/x 1, :b/y 2}");
    let bare = Form::ArrayMap(vec![Form::Keyword(sym(None, "x")), Form::Int(1)]);
    assert_eq!(pr_str_ctx(&bare, &ctx_with(None, false, true)), "{:x 1}");
    assert_eq!(pr_str_ctx(&Form::ArrayMap(vec![]), &ctx_with(None, false, true)), "{}");
}
