use clojure_core::keyword::{keyword, keyword_key, Keyword};

#[test]
fn keyword_from_one_text_splits_at_slash() {
    let k = keyword("a/b", None);
    assert_eq!(k.ns(), Some("a"));
    assert_eq!(k.name(), "b");
    let k = keyword("a/b/c", None);
    assert_eq!(k.ns(), Some("a"));
    assert_eq!(k.name(), "b/c");
}

#[test]
fn keyword_without_usable_split_is_plain() {
    for t in ["plain", "/", "a/", "/b"] {
        let k = keyword(t, None);
        assert_eq!(k.ns(), None);
        assert_eq!(k.name(), t);
    }
}

#[test]
fn keyword_from_two_texts() {
    let k = keyword("x", Some("y/z"));
    assert_eq!(k.ns(), Some("x"));
    assert_eq!(k.name(), "y/z");
    assert_eq!(keyword_key("x", Some("y")), (Some("x".to_string()), "y".to_string()));
}

#[test]
fn keyword_repr_and_equality() {
    let a = keyword("n/k", None);
    let b = keyword("n", Some("k"));
    assert!(a.equals(&b));
    assert_eq!(a.hash(), b.hash());
    assert_eq!(a.repr(), ":n/k");
    assert_eq!(keyword("k", None).repr(), ":k");
    assert!(!a.equals(&keyword("k", None)));
    let c = Keyword::new(None, "k".to_string());
    assert!(c.equals(&keyword("k", None)));
    assert_eq!(c.hash(), keyword("k", None).hash());
}
