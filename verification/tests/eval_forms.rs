use clojure_core::eval::macros::{expand, lookup_builtin_macro, MacroError};
use clojure_core::eval::special_forms::{list_rest, lookup, quote_form, unwrap_top_level_do, SpecialFormError};
use clojure_core::printer::pr_str;
use clojure_core::reader::form::{Form, Sym};

fn sym(name: &str) -> Form {
    Form::Symbol(Sym { ns: None, name: name.to_string() })
}

fn call(items: Vec<Form>) -> Form {
    Form::List(items)
}

fn expand_text(items: Vec<Form>) -> String {
    let list = call(items);
    let name = match &list {
        Form::List(v) => lookup_builtin_macro(&v[0]).unwrap(),
        _ => unreachable!(),
    };
    pr_str(&expand(name, &list).unwrap(), None)
}

fn expand_err(items: Vec<Form>) -> MacroError {
    let list = call(items);
    let name = match &list {
        Form::List(v) => lookup_builtin_macro(&v[0]).unwrap(),
        _ => unreachable!(),
    };
    expand(name, &list).unwrap_err()
}

#[test]
fn builtin_macro_names() {
    assert_eq!(lookup_builtin_macro(&sym("defn")), Some("defn"));
    assert_eq!(lookup_builtin_macro(&sym("when-not")), Some("when-not"));
    assert_eq!(lookup_builtin_macro(&sym("let")), None);
    assert_eq!(lookup_builtin_macro(&Form::Symbol(Sym { ns: Some("clojure.core".to_string()), name: "and".to_string() })), None);
    assert_eq!(lookup_builtin_macro(&Form::Int(1)), None);
}

#[test]
fn defn_expands_to_def_of_fn() {
    let t = expand_text(vec![sym("defn"), sym("f"), Form::Vector(vec![sym("x")]), sym("x")]);
    assert_eq!(t, "(def f (fn f [x] x))");
    assert_eq!(expand_err(vec![sym("defn"), sym("f")]), MacroError::DefnArgs);
}

#[test]
fn defmacro_expands_with_form_and_env() {
    let t = expand_text(vec![sym("defmacro"), sym("m"), Form::Vector(vec![sym("a")]), sym("a")]);
    assert_eq!(t, "(do (def m (fn m [&form &env a] a)) (_set-macro! (var m)) (var m))");
    assert_eq!(expand_err(vec![sym("defmacro"), sym("m")]), MacroError::DefmacroArgs);
    assert_eq!(expand_err(vec![sym("defmacro"), sym("m"), call(vec![])]), MacroError::DefmacroParams);
}

#[test]
fn when_and_when_not() {
    assert_eq!(expand_text(vec![sym("when"), sym("c"), sym("a"), sym("b")]), "(if c (do a b) nil)");
    assert_eq!(expand_text(vec![sym("when-not"), sym("c"), sym("a")]), "(if c nil (do a))");
    assert_eq!(expand_text(vec![sym("when"), sym("c")]), "(if c (do) nil)");
    assert_eq!(expand_err(vec![sym("when")]), MacroError::WhenArgs);
    assert_eq!(expand_err(vec![sym("when-not")]), MacroError::WhenNotArgs);
}

#[test]
fn cond_nests_ifs() {
    assert_eq!(expand_text(vec![sym("cond")]), "nil");
    assert_eq!(
        expand_text(vec![sym("cond"), sym("a"), Form::Int(1), Form::Keyword(Sym { ns: None, name: "else".to_string() }), Form::Int(2)]),
        "(if a 1 (if :else 2 nil))"
    );
    assert_eq!(expand_err(vec![sym("cond"), sym("a")]), MacroError::CondOdd);
}

#[test]
fn or_and_and() {
    assert_eq!(expand_text(vec![sym("or")]), "nil");
    assert_eq!(expand_text(vec![sym("or"), sym("x")]), "x");
    assert_eq!(expand_text(vec![sym("or"), sym("x"), sym("y")]), "(let [or__ x] (if or__ or__ y))");
    assert_eq!(expand_text(vec![sym("and")]), "true");
    assert_eq!(expand_text(vec![sym("and"), sym("x")]), "x");
    assert_eq!(
        expand_text(vec![sym("and"), sym("x"), sym("y"), sym("z")]),
        "(let [and__ x] (if and__ (let [and__ y] (if and__ z and__)) and__))"
    );
}

#[test]
fn special_form_names() {
    assert_eq!(lookup(&sym("quote")), Some("quote"));
    assert_eq!(lookup(&sym("if")), Some("if"));
    assert_eq!(lookup(&sym("do")), Some("do"));
    assert_eq!(lookup(&sym("let")), Some("let"));
    assert_eq!(lookup(&sym("let*")), Some("let"));
    assert_eq!(lookup(&sym("fn")), None);
    assert_eq!(lookup(&Form::Symbol(Sym { ns: Some("x".to_string()), name: "if".to_string() })), None);
}

#[test]
fn call_arguments_and_quote() {
    let args = list_rest(&call(vec![sym("quote"), sym("a")])).unwrap();
    assert_eq!(args.len(), 1);
    assert_eq!(pr_str(&quote_form(&args).unwrap(), None), "a");
    assert_eq!(list_rest(&call(vec![])).unwrap_err(), SpecialFormError::NotAList);
    assert_eq!(list_rest(&Form::Int(3)).unwrap_err(), SpecialFormError::NotAList);
    assert_eq!(quote_form(&vec![]).unwrap_err(), SpecialFormError::QuoteArity(0));
    assert_eq!(quote_form(&vec![Form::Nil, Form::Nil]).unwrap_err(), SpecialFormError::QuoteArity(2));
}

#[test]
fn top_level_do_is_split() {
    let forms = unwrap_top_level_do(&call(vec![sym("do"), Form::Int(1), Form::Int(2)])).unwrap();
    assert_eq!(forms.len(), 2);
    assert!(unwrap_top_level_do(&call(vec![sym("if"), Form::Int(1)])).is_none());
    assert!(unwrap_top_level_do(&call(vec![Form::Symbol(Sym { ns: Some("clojure.core".to_string()), name: "do".to_string() })])).is_none());
    assert_eq!(unwrap_top_level_do(&call(vec![sym("do")])).unwrap().len(), 0);
}
