use clojure_core::murmur3::{hash_int, hash_long, hash_ordered_seq, hash_unordered_seq, mix_coll_hash};

#[test]
fn hash_int_zero_is_zero() {
    assert_eq!(hash_int(0), 0);
}

#[test]
fn hash_int_known_values() {
    assert_eq!(hash_int(1), -68075478);
    assert_eq!(hash_int(-1), 1982413648);
    assert_eq!(hash_int(42), -1134849565);
}

#[test]
fn hash_long_known_values() {
    assert_eq!(hash_long(0), 0);
    assert_eq!(hash_long(1), 1392991556);
    assert_eq!(hash_long(-1), 1651860712);
    assert_eq!(hash_long(1i64 << 40), -1443483870);
}

#[test]
fn mix_coll_hash_of_empty_collections() {
    assert_eq!(mix_coll_hash(1, 0), -2017569654);
    assert_eq!(mix_coll_hash(0, 0), -15128758);
}

#[test]
fn hash_ordered_empty_and_small() {
    assert_eq!(hash_ordered_seq(&[]), -2017569654);
    let hs = [hash_long(1), hash_long(2), hash_long(3)];
    assert_eq!(hash_ordered_seq(&hs), 736442005);
}

#[test]
fn hash_unordered_empty_and_small() {
    assert_eq!(hash_unordered_seq(&[]), -15128758);
    let hs = [hash_long(1), hash_long(2), hash_long(3)];
    assert_eq!(hash_unordered_seq(&hs), 439094965);
}

#[test]
fn hash_unordered_ignores_order() {
    let a = [hash_long(1), hash_long(2), hash_long(3)];
    let b = [hash_long(3), hash_long(1), hash_long(2)];
    assert_eq!(hash_unordered_seq(&a), hash_unordered_seq(&b));
}

#[test]
fn hash_ordered_depends_on_order() {
    let a = [hash_long(1), hash_long(2)];
    let b = [hash_long(2), hash_long(1)];
    assert_ne!(hash_ordered_seq(&a), hash_ordered_seq(&b));
}
