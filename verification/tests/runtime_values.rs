use clojure_core::deferred::{DerefOutcome, FutureState, PromiseState};
use clojure_core::equiv::{
    char_equiv, equiv_defers, equiv_result, hash_bool, hash_char, hash_double_bits, hash_integer,
    Category,
};
use clojure_core::eval::env::{
    arity_error_message, fn_repr, resolve_error_message, CallError, Env, ResolveError,
};
use clojure_core::matcher::{matcher_group, matcher_group_or_default, GroupError};
use clojure_core::murmur3::hash_long;
use clojure_core::equiv::{coll_precheck, entries_all_match, map_entry_matches};
use clojure_core::eval::special_forms::{let_binding_name, let_pair_count, LetError};
use clojure_core::reader::form::{Form, Sym};

#[test]
fn categories_never_cross() {
    assert!(!equiv_defers(Category::Int, Some(Category::Float)));
    assert!(!equiv_defers(Category::Int, Some(Category::Bool)));
    assert!(!equiv_defers(Category::Bool, Some(Category::Int)));
    assert!(!equiv_defers(Category::Ratio, Some(Category::Decimal)));
    assert!(equiv_defers(Category::Float, Some(Category::Float)));
    // symmetric on categorized values
    assert_eq!(
        equiv_defers(Category::Decimal, Some(Category::Int)),
        equiv_defers(Category::Int, Some(Category::Decimal))
    );
    // values of no category: booleans refuse, the rest ask host equality
    assert!(!equiv_defers(Category::Bool, None));
    assert!(equiv_defers(Category::Int, None));
    assert!(!equiv_result(Category::Int, Some(Category::Float), true));
    assert!(equiv_result(Category::Int, Some(Category::Int), true));
    assert!(!equiv_result(Category::Int, Some(Category::Int), false));
}

#[test]
fn chars_equal_only_chars() {
    assert!(char_equiv('a' as u32, Some('a' as u32)));
    assert!(!char_equiv('a' as u32, Some('b' as u32)));
    assert!(!char_equiv('a' as u32, None));
}

#[test]
fn scalar_hashes() {
    assert_eq!(hash_bool(true), 1231);
    assert_eq!(hash_bool(false), 1237);
    assert_eq!(hash_integer(Some(42), 7), hash_long(42) as i64);
    assert_eq!(hash_integer(None, 0x1_0000_0005), 5);
    assert_eq!(hash_integer(None, -1), -1);
    // 1.0 is 0x3FF0000000000000: halves 0x3FF00000 ^ 0
    assert_eq!(hash_double_bits(1.0f64.to_bits()), 1072693248);
    assert_eq!(hash_double_bits((-0.0f64).to_bits()), hash_double_bits(0.0f64.to_bits()));
    assert_eq!(hash_double_bits(0.0f64.to_bits()), 0);
    assert_eq!(hash_double_bits((-1.0f64).to_bits()), -1074790400);
    assert_eq!(hash_char('a' as u32), 97);
    // a character and its code point hash apart, as do 1, 1.0 and true
    assert_ne!(hash_char('a' as u32), hash_integer(Some(97), 0));
    assert_ne!(hash_integer(Some(1), 0), hash_double_bits(1.0f64.to_bits()));
    assert_ne!(hash_integer(Some(1), 0), hash_bool(true));
}

#[test]
fn future_cancel_and_complete() {
    let mut f: FutureState<i32, &str> = FutureState::new();
    assert!(!f.is_done());
    assert!(matches!(f.deref_outcome(), DerefOutcome::Wait));
    assert_eq!(f.repr(), "#<Future :pending>");
    assert!(f.should_run());
    assert!(f.try_cancel());
    assert!(f.is_cancelled() && f.is_done());
    assert!(!f.should_run());
    assert!(!f.try_cancel());
    // a late result is dropped
    assert!(!f.complete(Ok(5)));
    assert!(matches!(f.deref_outcome(), DerefOutcome::CancelledError));
    assert_eq!(f.repr(), "#<Future :cancelled>");

    let mut g: FutureState<i32, &str> = FutureState::new();
    assert!(g.complete(Ok(7)));
    assert!(matches!(g.deref_outcome(), DerefOutcome::Value(7)));
    assert!(!g.try_cancel());
    assert_eq!(g.repr(), "#<Future :done>");

    let mut h: FutureState<i32, &str> = FutureState::new();
    assert!(h.complete(Err("boom")));
    assert!(matches!(h.deref_outcome(), DerefOutcome::Raise("boom")));
    assert_eq!(h.repr(), "#<Future :failed>");
}

#[test]
fn promise_first_delivery_wins() {
    let mut p: PromiseState<i32> = PromiseState::new();
    assert!(!p.is_realized());
    assert_eq!(p.value(), None);
    assert_eq!(p.repr(), "#<Promise :pending>");
    assert!(p.try_deliver(1));
    assert!(!p.try_deliver(2));
    assert!(p.is_realized());
    assert_eq!(p.value(), Some(1));
    assert_eq!(p.repr(), "#<Promise :delivered>");
}

#[test]
fn matcher_groups() {
    assert_eq!(matcher_group(false, 0, 2), Err(GroupError::NoMatch));
    assert_eq!(matcher_group(true, 3, 2), Err(GroupError::IndexOutOfBounds(3)));
    assert_eq!(matcher_group(true, -1, 2), Err(GroupError::IndexOutOfBounds(-1)));
    assert_eq!(matcher_group(true, 2, 2), Ok(2));
    assert_eq!(matcher_group(true, 0, 0), Ok(0));
    assert_eq!(matcher_group_or_default(true, 5, 2), Ok(None));
    assert_eq!(matcher_group_or_default(true, 1, 2), Ok(Some(1)));
    assert_eq!(matcher_group_or_default(false, 1, 2), Err(GroupError::NoMatch));
    assert_eq!(GroupError::NoMatch.message(), "No match found");
    assert_eq!(GroupError::IndexOutOfBounds(-3).message(), "Matcher index out of bounds: -3");
}

#[test]
fn env_extend_and_lookup() {
    let e: Env<&str, i32> = Env::new("user");
    assert_eq!(e.lookup_local("x"), None);
    let e1 = e.extend("x", 1);
    let e2 = e1.extend("y", 2);
    let e3 = e2.extend("x", 3);
    assert_eq!(e3.lookup_local("x"), Some(3));
    assert_eq!(e3.lookup_local("y"), Some(2));
    // the environments extended from are unchanged
    assert_eq!(e2.lookup_local("x"), Some(1));
    assert_eq!(e.lookup_local("x"), None);
    assert_eq!(e3.locals.len(), 2);
    assert_eq!(e3.current_ns, "user");
    let many = e1.extend_many(&[("a".to_string(), 10), ("x".to_string(), 11), ("a".to_string(), 12)]);
    assert_eq!(many.lookup_local("a"), Some(12));
    assert_eq!(many.lookup_local("x"), Some(11));
    let c = many.clone_with();
    assert_eq!(c.lookup_local("a"), Some(12));
    assert_eq!(c.resolve_symbol(None, "x"), Ok(11));
    assert_eq!(c.resolve_symbol(Some("ns"), "x"), Err(ResolveError::Namespaced));
    assert_eq!(c.resolve_symbol(None, "zz"), Err(ResolveError::Unbound));
}

#[test]
fn call_env_binds_params() {
    let captured: Env<&str, i32> = Env::new("user").extend("k", 9).extend("a", 0);
    let params = vec!["a".to_string(), "b".to_string()];
    let env = Env::call_env(&captured, &params, &[1, 2]).unwrap();
    assert_eq!(env.lookup_local("a"), Some(1));
    assert_eq!(env.lookup_local("b"), Some(2));
    assert_eq!(env.lookup_local("k"), Some(9));
    assert!(matches!(Env::call_env(&captured, &params, &[1]), Err(CallError::Arity(1, 2))));
    assert_eq!(
        arity_error_message(1, Some("f"), 2),
        "Wrong number of args (1) passed to fn f (expected 2)"
    );
    assert_eq!(
        arity_error_message(3, None, 0),
        "Wrong number of args (3) passed to fn <anonymous> (expected 0)"
    );
}

#[test]
fn eval_messages() {
    assert_eq!(
        resolve_error_message(&ResolveError::Unbound, "", "foo"),
        "Unable to resolve symbol: foo in this context"
    );
    assert_eq!(
        resolve_error_message(&ResolveError::Namespaced, "a.b", "c"),
        "Unable to resolve namespaced symbol: a.b/c (ns resolution pending Phase E3)"
    );
    assert_eq!(fn_repr(Some("inc")), "#<Fn inc>");
    assert_eq!(fn_repr(None), "#<Fn anonymous>");
}

#[test]
fn collection_equiv_steps() {
    assert!(coll_precheck(true, true, 2, 2, 5, 5));
    assert!(!coll_precheck(true, false, 2, 2, 5, 5));
    assert!(!coll_precheck(true, true, 2, 3, 5, 5));
    assert!(!coll_precheck(true, true, 2, 2, 5, 6));
    assert!(map_entry_matches(Some(true)));
    assert!(!map_entry_matches(Some(false)));
    assert!(!map_entry_matches(None));
    assert!(entries_all_match(&[Some(true), Some(true)]));
    assert!(entries_all_match(&[]));
    assert!(!entries_all_match(&[Some(true), None]));
}

#[test]
fn let_validation() {
    let sym = |n: &str| Form::Symbol(Sym { ns: None, name: n.to_string() });
    assert_eq!(let_pair_count(&vec![]), Err(LetError::MissingBindings));
    assert_eq!(let_pair_count(&vec![Form::List(vec![])]), Err(LetError::NotAVector));
    assert_eq!(let_pair_count(&vec![Form::Vector(vec![sym("a")])]), Err(LetError::OddBindings));
    assert_eq!(let_pair_count(&vec![Form::Vector(vec![sym("a"), Form::Int(1), sym("b"), Form::Int(2)]), sym("a")]), Ok(2));
    assert_eq!(let_binding_name(&sym("x")), Ok("x".to_string()));
    assert_eq!(
        let_binding_name(&Form::Symbol(Sym { ns: Some("n".to_string()), name: "y".to_string() })),
        Ok("y".to_string())
    );
    assert_eq!(let_binding_name(&Form::Int(3)), Err(LetError::NameNotSymbol));
    assert_eq!(LetError::OddBindings.message(), "let binding vector must have even length");
}
