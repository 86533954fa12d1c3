use clojure_core::printer::pr_str;
use clojure_core::reader::anon_fn::{anon_fn_reader, rewrite_bare_percent, scan_anon_params};
use clojure_core::reader::context::ReaderContext;
use clojure_core::reader::errors::{Coll, ReadErrorKind};
use clojure_core::reader::form::{Form, Sym};
use clojure_core::reader::forms::{
    deref_reader, discard_reader, list_reader, map_reader, meta_reader, quote_reader, regex_reader,
    set_reader, unquote_reader, var_quote_reader, vector_reader,
};
use clojure_core::reader::source::Source;
use clojure_core::reader::syntax_quote::{gensym_id, syntax_quote, syntax_quote_reader};

fn ctx() -> ReaderContext {
    ReaderContext {
        ns_name: "user".to_string(),
        aliases: vec![],
        var_homes: vec![("map".to_string(), "clojure.core".to_string())],
    }
}

fn sym(name: &str) -> Form {
    Form::Symbol(Sym { ns: None, name: name.to_string() })
}

#[test]
fn quote_deref_and_var_quote() {
    let mut s = Source::new("'x");
    assert_eq!(pr_str(&quote_reader(&mut s, &ctx()).unwrap(), None), "(quote x)");
    let mut s = Source::new("@a");
    assert_eq!(pr_str(&deref_reader(&mut s, &ctx()).unwrap(), None), "(clojure.core/deref a)");
    let mut s = Source::new("'foo");
    assert_eq!(pr_str(&var_quote_reader(&mut s, &ctx()).unwrap(), None), "(var foo)");
}

#[test]
fn quote_of_nothing_fails_at_end_of_input() {
    let mut s = Source::new("'");
    let e = quote_reader(&mut s, &ctx()).unwrap_err();
    assert!(matches!(e.kind, ReadErrorKind::Eof));
    assert_eq!((e.line, e.column), (1, 2));
}

#[test]
fn lists_vectors_and_maps() {
    let mut s = Source::new("(1 2 3)");
    assert_eq!(pr_str(&list_reader(&mut s, &ctx()).unwrap(), None), "(1 2 3)");
    let mut s = Source::new("[a, :b \"c\"]");
    assert_eq!(pr_str(&vector_reader(&mut s, &ctx()).unwrap(), None), "[a :b \"c\"]");
    let mut s = Source::new("{:a 1 :b 2}");
    assert_eq!(pr_str(&map_reader(&mut s, &ctx()).unwrap(), None), "{:a 1, :b 2}");
    let mut s = Source::new("()");
    assert_eq!(pr_str(&list_reader(&mut s, &ctx()).unwrap(), None), "()");
}

#[test]
fn collection_errors() {
    let mut s = Source::new("{:a}");
    assert!(matches!(map_reader(&mut s, &ctx()).unwrap_err().kind, ReadErrorKind::MapOddForms));
    let mut s = Source::new("(1 2");
    let e = list_reader(&mut s, &ctx()).unwrap_err();
    assert!(matches!(e.kind, ReadErrorKind::EofInCollection(Coll::List)));
    assert_eq!((e.line, e.column), (1, 1));
    let mut s = Source::new("[1 )");
    let e = vector_reader(&mut s, &ctx()).unwrap_err();
    assert!(matches!(e.kind, ReadErrorKind::UnmatchedInCollection(']', ')')));
    assert_eq!((e.line, e.column), (1, 4));
    let mut s = Source::new("((1))");
    let e = list_reader(&mut s, &ctx()).unwrap_err();
    assert!(matches!(e.kind, ReadErrorKind::CollectionNotImplemented('(')));
}

#[test]
fn sets_refuse_duplicates() {
    let mut s = Source::new("{1 2}");
    assert_eq!(pr_str(&set_reader(&mut s, &ctx()).unwrap(), None), "#{1 2}");
    let mut s = Source::new("{1 :a 1}");
    let e = set_reader(&mut s, &ctx()).unwrap_err();
    assert!(matches!(e.kind, ReadErrorKind::DuplicateSetKey));
}

#[test]
fn metadata_is_attached() {
    let mut s = Source::new(":private x");
    let f = meta_reader(&mut s, &ctx()).unwrap();
    match &f {
        Form::Meta(m, t) => {
            assert_eq!(pr_str(m, None), "{:private true}");
            assert_eq!(pr_str(t, None), "x");
        },
        other => panic!("unexpected {:?}", other),
    }
    assert_eq!(pr_str(&f, None), "x");
    let mut s = Source::new("String y");
    match meta_reader(&mut s, &ctx()).unwrap() {
        Form::Meta(m, _) => assert_eq!(pr_str(&m, None), "{:tag String}"),
        other => panic!("unexpected {:?}", other),
    }
    let mut s = Source::new(":k 5");
    assert!(matches!(meta_reader(&mut s, &ctx()).unwrap(), Form::Int(5)));
    let mut s = Source::new("5 x");
    assert!(matches!(meta_reader(&mut s, &ctx()).unwrap_err().kind, ReadErrorKind::BadMetadata));
}

#[test]
fn discard_drops_one_form() {
    let mut s = Source::new("1 2");
    assert!(matches!(discard_reader(&mut s, &ctx()).unwrap(), Form::Int(2)));
}

#[test]
fn anonymous_functions() {
    let mut s = Source::new("(+ % %2)");
    assert_eq!(pr_str(&anon_fn_reader(&mut s, &ctx()).unwrap(), None), "(fn [%1 %2] (+ %1 %2))");
    let mut s = Source::new("(apply f %&)");
    assert_eq!(pr_str(&anon_fn_reader(&mut s, &ctx()).unwrap(), None), "(fn [& %&] (apply f %&))");
    let mut s = Source::new("(f %3 %)");
    assert_eq!(pr_str(&anon_fn_reader(&mut s, &ctx()).unwrap(), None), "(fn [%1 %2 %3] (f %3 %1))");
    let mut s = Source::new("()");
    assert_eq!(pr_str(&anon_fn_reader(&mut s, &ctx()).unwrap(), None), "(fn [] ())");
}

#[test]
fn anon_params_scan_and_rewrite() {
    let body = Form::List(vec![sym("f"), Form::Vector(vec![sym("%"), sym("%+4")]), sym("%&"), sym("%x")]);
    let mut max_n: usize = 0;
    let mut rest = false;
    scan_anon_params(&body, &mut max_n, &mut rest);
    assert_eq!(max_n, 4);
    assert!(rest);
    assert_eq!(pr_str(&rewrite_bare_percent(&body), None), "(f [%1 %+4] %& %x)");
    let set = Form::HashSet(vec![sym("%"), sym("%1")]);
    assert_eq!(pr_str(&rewrite_bare_percent(&set), None), "#{%1}");
}

#[test]
fn rewritten_map_keeps_the_last_value_of_a_key() {
    let m = Form::ArrayMap(vec![sym("%"), Form::Int(1), sym("a"), Form::Int(2), sym("%1"), Form::Int(3)]);
    assert_eq!(pr_str(&rewrite_bare_percent(&m), None), "{%1 3, a 2}");
    let plain = Form::ArrayMap(vec![sym("a"), sym("%"), sym("b"), Form::Int(2)]);
    assert_eq!(pr_str(&rewrite_bare_percent(&plain), None), "{a %1, b 2}");
    // rewriting again changes nothing
    let once = rewrite_bare_percent(&m);
    assert_eq!(pr_str(&rewrite_bare_percent(&once), None), pr_str(&once, None));
}

#[test]
fn regex_literals() {
    let mut s = Source::new("\"a\\d+\\\"b\"");
    match regex_reader(&mut s).unwrap() {
        Form::Regex(p) => assert_eq!(p, "a\\d+\"b"),
        other => panic!("unexpected {:?}", other),
    }
    let mut s = Source::new("\"abc");
    assert!(matches!(regex_reader(&mut s).unwrap_err().kind, ReadErrorKind::EofInRegex));
    let mut s = Source::new("\"abc\\");
    assert!(matches!(regex_reader(&mut s).unwrap_err().kind, ReadErrorKind::EofInRegexEscape));
}

#[test]
fn unquote_and_splicing() {
    let mut s = Source::new("~x");
    assert_eq!(pr_str(&unquote_reader(&mut s, &ctx()).unwrap(), None), "(clojure.core/unquote x)");
    let mut s = Source::new("~@xs");
    assert_eq!(pr_str(&unquote_reader(&mut s, &ctx()).unwrap(), None), "(clojure.core/unquote-splicing xs)");
}

#[test]
fn syntax_quote_symbols() {
    let mut n: u64 = 0;
    let mut s = Source::new("`foo");
    assert_eq!(pr_str(&syntax_quote_reader(&mut s, &ctx(), &mut n).unwrap(), None), "(quote user/foo)");
    let mut s = Source::new("`map");
    assert_eq!(pr_str(&syntax_quote_reader(&mut s, &ctx(), &mut n).unwrap(), None), "(quote clojure.core/map)");
    let mut s = Source::new("`if");
    assert_eq!(pr_str(&syntax_quote_reader(&mut s, &ctx(), &mut n).unwrap(), None), "(quote if)");
    let mut s = Source::new("`java.util.List");
    assert_eq!(pr_str(&syntax_quote_reader(&mut s, &ctx(), &mut n).unwrap(), None), "(quote java.util.List)");
    let mut s = Source::new("`:k");
    assert_eq!(pr_str(&syntax_quote_reader(&mut s, &ctx(), &mut n).unwrap(), None), ":k");
    assert_eq!(n, 0);
}

#[test]
fn syntax_quote_gensyms_are_shared_within_a_form() {
    let mut n: u64 = 7;
    let mut s = Source::new("`x#");
    assert_eq!(pr_str(&syntax_quote_reader(&mut s, &ctx(), &mut n).unwrap(), None), "(quote x__7__auto__)");
    assert_eq!(n, 8);
    let mut s = Source::new("`y#");
    assert_eq!(pr_str(&syntax_quote_reader(&mut s, &ctx(), &mut n).unwrap(), None), "(quote y__8__auto__)");
    assert_eq!(n, 9);
}

#[test]
fn syntax_quote_unquote_at_top_and_splice_error() {
    let mut n: u64 = 0;
    let mut s = Source::new("`~x");
    // `~x` is not read by the dispatcher here: the inner read refuses `~`.
    let e = syntax_quote_reader(&mut s, &ctx(), &mut n).unwrap_err();
    assert!(matches!(e.kind, ReadErrorKind::ReaderMacroNotImplemented('~')));
    assert_eq!(n, 0);
}

#[test]
fn gensym_counter_wraps() {
    let mut c: u64 = u64::MAX;
    assert_eq!(gensym_id(&mut c), u64::MAX);
    assert_eq!(c, 0);
    assert_eq!(gensym_id(&mut c), 0);
    assert_eq!(c, 1);
}

fn qsym(ns: &str, name: &str) -> Form {
    Form::Symbol(Sym { ns: Some(ns.to_string()), name: name.to_string() })
}

#[test]
fn syntax_quote_of_collections() {
    let form = Form::List(vec![
        sym("a"),
        sym("b#"),
        sym("b#"),
        Form::List(vec![qsym("clojure.core", "unquote"), sym("c")]),
        Form::List(vec![qsym("clojure.core", "unquote-splicing"), sym("d")]),
    ]);
    let mut gensyms: Vec<(String, String)> = Vec::new();
    let mut n: u64 = 0;
    let r = syntax_quote(&form, &ctx(), &mut gensyms, &mut n).unwrap();
    assert_eq!(
        pr_str(&r, None),
        "(clojure.core/apply clojure.core/list (clojure.core/concat (clojure.core/list (quote user/a)) \
(clojure.core/list (quote b__0__auto__)) (clojure.core/list (quote b__0__auto__)) (clojure.core/list c) d))"
    );
    assert_eq!(n, 1);
    assert_eq!(gensyms, vec![("b".to_string(), "b__0__auto__".to_string())]);
}

#[test]
fn syntax_quote_of_vectors_maps_sets_and_empty_lists() {
    let mut g: Vec<(String, String)> = Vec::new();
    let mut n: u64 = 0;
    let v = Form::Vector(vec![Form::Int(1), sym("x")]);
    assert_eq!(
        pr_str(&syntax_quote(&v, &ctx(), &mut g, &mut n).unwrap(), None),
        "(clojure.core/apply clojure.core/vector (clojure.core/concat (clojure.core/list 1) (clojure.core/list (quote user/x))))"
    );
    let m = Form::ArrayMap(vec![Form::Keyword(Sym { ns: None, name: "a".to_string() }), sym("x")]);
    assert_eq!(
        pr_str(&syntax_quote(&m, &ctx(), &mut g, &mut n).unwrap(), None),
        "(clojure.core/hash-map :a (quote user/x))"
    );
    let s = Form::HashSet(vec![Form::Str("s".to_string())]);
    assert_eq!(
        pr_str(&syntax_quote(&s, &ctx(), &mut g, &mut n).unwrap(), None),
        "(clojure.core/apply clojure.core/hash-set (clojure.core/concat (clojure.core/list \"s\")))"
    );
    let e = Form::List(vec![]);
    assert_eq!(pr_str(&syntax_quote(&e, &ctx(), &mut g, &mut n).unwrap(), None), "(clojure.core/list)");
}

#[test]
fn syntax_quote_splice_outside_a_collection_fails() {
    let f = Form::List(vec![qsym("clojure.core", "unquote-splicing"), sym("xs")]);
    let mut g: Vec<(String, String)> = Vec::new();
    let mut n: u64 = 3;
    let e = syntax_quote(&f, &ctx(), &mut g, &mut n).unwrap_err();
    assert!(matches!(e.kind, ReadErrorKind::SpliceNotInList));
    assert_eq!((e.line, e.column), (0, 0));
    assert_eq!(n, 3);
    let m = Form::ArrayMap(vec![sym("k"), f]);
    let e = syntax_quote(&m, &ctx(), &mut g, &mut n).unwrap_err();
    assert!(matches!(e.kind, ReadErrorKind::SpliceNotInList));
}

#[test]
fn syntax_quote_unquote_returns_the_form() {
    let f = Form::List(vec![qsym("clojure.core", "unquote"), Form::Int(5)]);
    let mut g: Vec<(String, String)> = Vec::new();
    let mut n: u64 = 0;
    assert!(matches!(syntax_quote(&f, &ctx(), &mut g, &mut n).unwrap(), Form::Int(5)));
}

#[test]
fn printed_collections_read_back() {
    let items = || {
        vec![
            Form::Int(-12),
            Form::Str("a \"quoted\"\nline".to_string()),
            Form::Keyword(Sym { ns: Some("my.ns".to_string()), name: "k".to_string() }),
            Form::Symbol(Sym { ns: None, name: "foo?".to_string() }),
            Form::Nil,
            Form::Bool(true),
            Form::Int(0),
        ]
    };
    let ctx = ReaderContext { ns_name: "user".to_string(), aliases: vec![], var_homes: vec![] };
    let text = pr_str(&Form::Vector(items()), None);
    let mut s = Source::new(&text);
    let back = vector_reader(&mut s, &ctx).unwrap();
    assert!(s.at_eof());
    assert_eq!(pr_str(&back, None), text);
    match back {
        Form::Vector(v) => assert_eq!(v.len(), 7),
        other => panic!("read back {:?}", other),
    }
    let text = pr_str(&Form::List(items()), None);
    let mut s = Source::new(&text);
    let back = list_reader(&mut s, &ctx).unwrap();
    assert!(s.at_eof());
    assert_eq!(pr_str(&back, None), text);
    let empty = pr_str(&Form::List(vec![]), None);
    let mut s = Source::new(&empty);
    assert_eq!(pr_str(&list_reader(&mut s, &ctx).unwrap(), None), "()");
}

#[test]
fn printed_maps_and_sets_read_back() {
    let ctx = ReaderContext { ns_name: "user".to_string(), aliases: vec![], var_homes: vec![] };
    let kw = |n: &str| Form::Keyword(Sym { ns: None, name: n.to_string() });
    let map = Form::ArrayMap(vec![kw("a"), Form::Int(1), kw("b"), Form::Str("x y".to_string()), Form::Nil, Form::Bool(false)]);
    let text = pr_str(&map, None);
    assert_eq!(text, "{:a 1, :b \"x y\", nil false}");
    let mut s = Source::new(&text);
    let back = map_reader(&mut s, &ctx).unwrap();
    assert!(s.at_eof());
    assert_eq!(pr_str(&back, None), text);

    let set = Form::HashSet(vec![Form::Int(3), kw("k"), Form::Str("s".to_string())]);
    let text = pr_str(&set, None);
    assert_eq!(text, "#{3 :k \"s\"}");
    let mut s = Source::new(&text[1..]);
    let back = set_reader(&mut s, &ctx).unwrap();
    assert!(s.at_eof());
    assert_eq!(pr_str(&back, None), text);
}
