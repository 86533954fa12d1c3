use clojure_core::multifn::{order_hierarchy, DispatchTable, Hierarchy, PreferConflict, ResolveError};
use clojure_core::pmap::PMap;
use clojure_core::protocol::{CacheKey, MethodCache};

fn h(parents: &[(u64, &[u64])]) -> Hierarchy {
    Hierarchy { parents: parents.iter().map(|(k, ps)| (*k, ps.to_vec())).collect() }
}

const DEFAULT: u64 = 0;

#[test]
fn exact_method_wins() {
    let mut t: DispatchTable<&str> = DispatchTable::new(DEFAULT);
    t.add_method(1, "one");
    t.add_method(2, "two");
    let r = t.resolve_method(2, &vec![true, true], &h(&[])).unwrap();
    assert_eq!(t.methods[r].1, "two");
    t.add_method(2, "TWO");
    assert_eq!(t.methods.len(), 2);
    assert_eq!(t.find_method(2), Some(&"TWO"));
    t.remove_method(1);
    assert_eq!(t.find_method(1), None);
    assert_eq!(t.methods.len(), 1);
    t.remove_all_methods();
    assert!(t.methods.is_empty());
}

#[test]
fn single_isa_match_then_default_then_none() {
    let mut t: DispatchTable<&str> = DispatchTable::new(DEFAULT);
    t.add_method(10, "animal");
    t.add_method(20, "plant");
    let r = t.resolve_method(11, &vec![true, false], &h(&[])).unwrap();
    assert_eq!(t.methods[r].1, "animal");
    assert_eq!(t.resolve_method(30, &vec![false, false], &h(&[])), Err(ResolveError::NoMethod(30)));
    t.add_method(DEFAULT, "default");
    let r = t.resolve_method(30, &vec![false, false, false], &h(&[])).unwrap();
    assert_eq!(t.methods[r].1, "default");
}

#[test]
fn ambiguity_is_settled_by_preferences() {
    let mut t: DispatchTable<&str> = DispatchTable::new(DEFAULT);
    t.add_method(1, "a");
    t.add_method(2, "b");
    let hier = h(&[]);
    assert_eq!(t.resolve_method(9, &vec![true, true], &hier), Err(ResolveError::Ambiguous(1, 2)));
    assert_eq!(t.prefer_method(2, 1, &hier), Ok(()));
    assert!(t.prefers(2, 1, &hier));
    assert!(!t.prefers(1, 2, &hier));
    let r = t.resolve_method(9, &vec![true, true], &hier).unwrap();
    assert_eq!(t.methods[r].1, "b");
    assert_eq!(t.prefer_method(1, 2, &hier), Err(PreferConflict { preferred: 2, over: 1 }));
}

#[test]
fn preferences_follow_the_hierarchy() {
    // 5 and 6 derive from 4; 4 is preferred over 7.
    let hier = h(&[(4, &[]), (5, &[4]), (6, &[4]), (7, &[])]);
    let mut t: DispatchTable<&str> = DispatchTable::new(DEFAULT);
    t.prefer_method(4, 7, &hier).unwrap();
    assert!(t.prefers(5, 7, &hier));
    assert!(t.prefers(4, 7, &hier));
    assert!(!t.prefers(7, 5, &hier));
    // 8's parent is 7: 4 is preferred over 8's parent.
    let hier2 = h(&[(4, &[]), (7, &[]), (8, &[7])]);
    assert!(t.prefers(4, 8, &hier2));
}

#[test]
fn pick_preferred_needs_a_unique_winner() {
    let mut t: DispatchTable<()> = DispatchTable::new(DEFAULT);
    let hier = h(&[]);
    assert_eq!(t.pick_preferred(&vec![1, 2, 3], &hier), None);
    t.prefer_method(1, 2, &hier).unwrap();
    t.prefer_method(1, 3, &hier).unwrap();
    assert_eq!(t.pick_preferred(&vec![2, 1, 3], &hier), Some(1));
    assert_eq!(t.pick_preferred(&vec![5], &hier), Some(0));
}

#[test]
fn pmap_assoc_get_update_merge() {
    let m: PMap<&str, i32> = PMap::new();
    let m = m.assoc(100, &"a", 1);
    let m = m.assoc(200, &"b", 2);
    let m2 = m.assoc(100, &"a", 10);
    assert_eq!(m.get(100), Some(&1));
    assert_eq!(m2.get(100), Some(&10));
    assert_eq!(m2.get(200), Some(&2));
    assert_eq!(m2.get(300), None);
    assert_eq!(m2.0.len(), 2);
    let mut m3 = m2.assoc(300, &"c", 3);
    assert!(m3.update_in_place(200, 20));
    assert!(!m3.update_in_place(400, 40));
    assert_eq!(m3.get(200), Some(&20));
    let other = PMap::<&str, i32>::new().assoc(300, &"c", 30).assoc(500, &"e", 50);
    let merged = m3.merge(&other);
    assert_eq!(merged.get(100), Some(&10));
    assert_eq!(merged.get(300), Some(&30));
    assert_eq!(merged.get(500), Some(&50));
    let keys: Vec<usize> = merged.0.iter().map(|e| e.key_ptr).collect();
    assert_eq!(keys, vec![100, 200, 300, 500]);
}

#[test]
fn type_cache_direct_and_promoted_entries() {
    let mut c: MethodCache<&str> = MethodCache::new();
    let base = CacheKey(1);
    let derived = CacheKey(2);
    c.extend_type(base, "base-impl");
    assert_eq!(c.epoch, 1);
    let i = c.resolve(derived, &vec![CacheKey(9), base]).unwrap();
    assert_eq!(c.entries[i].0, derived);
    assert_eq!(c.entries[i].1.impls, "base-impl");
    assert!(c.entries[i].1.promoted);
    assert_eq!(c.resolve(derived, &vec![]), Some(i));
    c.extend_type(CacheKey(3), "other");
    assert_eq!(c.resolve(derived, &vec![]), None);
    let j = c.resolve(derived, &vec![base]).unwrap();
    assert_eq!(c.entries[j].1.epoch, 2);
    c.extend_type(derived, "own");
    let k = c.resolve(derived, &vec![base]).unwrap();
    assert_eq!(c.entries[k].1.impls, "own");
    assert!(!c.entries[k].1.promoted);
    assert!(c.lookup(CacheKey(42)).is_none());
    c.bump_epoch();
    assert_eq!(c.epoch, 4);
    let k2 = c.resolve(derived, &vec![]).unwrap();
    assert_eq!(c.entries[k2].1.impls, "own");
}

#[test]
fn hierarchy_order_check() {
    assert!(h(&[]).is_ordered());
    assert!(h(&[(1, &[]), (2, &[1]), (3, &[1, 2])]).is_ordered());
    // a parent listed after its child
    assert!(!h(&[(2, &[1]), (1, &[])]).is_ordered());
    // a parent with no entry of its own is fine
    assert!(h(&[(2, &[7])]).is_ordered());
    // a value listed as its own parent
    assert!(!h(&[(1, &[1])]).is_ordered());
}

#[test]
fn hierarchy_gets_ordered() {
    // children listed before their parents
    let t = vec![(3u64, vec![1u64, 2]), (2, vec![1]), (1, vec![])];
    let h2 = order_hierarchy(t).unwrap();
    assert!(h2.is_ordered());
    assert_eq!(h2.parents.len(), 3);
    let mut keys: Vec<u64> = h2.parents.iter().map(|(k, _)| *k).collect();
    keys.sort();
    assert_eq!(keys, vec![1, 2, 3]);
    // a parent outside the table does not hold anything up
    assert!(order_hierarchy(vec![(5, vec![9])]).unwrap().is_ordered());
    // a cycle cannot be ordered
    assert!(order_hierarchy(vec![(1, vec![2]), (2, vec![1])]).is_none());
    assert!(order_hierarchy(vec![(1, vec![1])]).is_none());
    assert!(order_hierarchy(vec![]).unwrap().parents.is_empty());
}

#[test]
fn hierarchy_with_a_cycle_among_others_is_refused() {
    // entries outside the cycle would order fine; the cycle 2 -> 3 -> 4 -> 2 cannot
    let t = vec![(1u64, vec![]), (2, vec![3]), (5, vec![1]), (3, vec![4]), (4, vec![2])];
    assert!(order_hierarchy(t).is_none());
    // the same entries without the edge back to 2 order, parents first
    let t = vec![(1u64, vec![]), (2, vec![3]), (5, vec![1]), (3, vec![4]), (4, vec![])];
    let h2 = order_hierarchy(t).unwrap();
    assert!(h2.is_ordered());
    assert_eq!(h2.parents.len(), 5);
}
