//! A small persistent association map keyed by object identity (a key's
//! address, given as `key_ptr`), as used by the binding stack. Operations
//! are linear; entries keep the order in which their keys were added.

use vstd::prelude::*;

verus! {

/// One key/value pair, with the identity the key is found by.
pub struct Entry<K, V> {
    pub key_ptr: usize,
    pub key: K,
    pub val: V,
}

/// The map: its entries, no two of which share a `key_ptr` when built by
/// these operations.
pub struct PMap<K, V>(pub Vec<Entry<K, V>>);

/// Index of the first entry for identity `p`.
pub open spec fn entry_index<K, V>(s: Seq<Entry<K, V>>, p: usize) -> Option<nat>
    decreases s.len(),
{
    if s.len() == 0 {
        None
    } else if s.last().key_ptr == p && entry_index(s.drop_last(), p) is None {
        Some((s.len() - 1) as nat)
    } else {
        entry_index(s.drop_last(), p)
    }
}

/// The value stored for identity `p`, if any.
pub open spec fn lookup<K, V>(s: Seq<Entry<K, V>>, p: usize) -> Option<V> {
    match entry_index(s, p) {
        Some(i) => Some(s[i as int].val),
        None => None,
    }
}

/// `new` is `old` with `p` bound to `val`: an entry for `p` gets a clone of
/// `val` (in its place), other entries are cloned as they are, and without
/// an entry for `p` one is added at the end holding `val` itself.
pub open spec fn assoc_rel<K: Clone, V: Clone>(
    old: Seq<Entry<K, V>>,
    p: usize,
    key: K,
    val: V,
    new: Seq<Entry<K, V>>,
) -> bool {
    let found = entry_index(old, p) is Some;
    &&& new.len() == if found {
        old.len()
    } else {
        old.len() + 1
    }
    &&& forall|i: int|
        #![trigger new[i]]
        0 <= i < old.len() ==> new[i].key_ptr == old[i].key_ptr && cloned(old[i].key, new[i].key)
            && if old[i].key_ptr == p {
            cloned(val, new[i].val)
        } else {
            cloned(old[i].val, new[i].val)
        }
    &&& !found ==> new[old.len() as int].key_ptr == p && cloned(key, new[old.len() as int].key)
        && new[old.len() as int].val == val
}

pub proof fn lemma_entry_index<K, V>(s: Seq<Entry<K, V>>, p: usize)
    ensures
        entry_index(s, p) matches Some(i) ==> i < s.len() && s[i as int].key_ptr == p && forall|j: int|
            0 <= j < i ==> s[j].key_ptr != p,
        entry_index(s, p) is None ==> forall|j: int| 0 <= j < s.len() ==> s[j].key_ptr != p,
    decreases s.len(),
{
    if s.len() > 0 {
        let u = s.drop_last();
        lemma_entry_index(u, p);
        assert forall|j: int| 0 <= j < u.len() implies #[trigger] u[j] == s[j] by {}
        assert(s.last() == s[s.len() - 1]);
        if s.last().key_ptr == p && entry_index(u, p) is None {
            assert forall|j: int| 0 <= j < s.len() - 1 implies s[j].key_ptr != p by {
                assert(u[j] == s[j]);
            }
        } else {
            match entry_index(u, p) {
                Some(i) => {
                    assert(u[i as int] == s[i as int]);
                    assert forall|j: int| 0 <= j < i implies s[j].key_ptr != p by {
                        assert(u[j] == s[j]);
                    }
                },
                None => {
                    assert forall|j: int| 0 <= j < s.len() implies s[j].key_ptr != p by {
                        if j < u.len() {
                            assert(u[j] == s[j]);
                        }
                    }
                },
            }
        }
    }
}

proof fn lemma_entry_index_first<K, V>(s: Seq<Entry<K, V>>, p: usize, i: nat)
    requires
        i < s.len(),
        s[i as int].key_ptr == p,
        forall|j: int| 0 <= j < i ==> s[j].key_ptr != p,
    ensures
        entry_index(s, p) == Some(i),
{
    lemma_entry_index(s, p);
    match entry_index(s, p) {
        Some(x) => {
            if x < i {
            } else if x > i {
            }
        },
        None => {},
    }
}

/// Two sequences of entries with the same identities in the same places
/// have their first entries for any identity in the same place.
proof fn lemma_entry_index_same_ptrs<K, V>(a: Seq<Entry<K, V>>, b: Seq<Entry<K, V>>, p: usize)
    requires
        a.len() <= b.len(),
        forall|i: int| 0 <= i < a.len() ==> #[trigger] b[i].key_ptr == a[i].key_ptr,
    ensures
        entry_index(a, p) matches Some(i) ==> entry_index(b, p) == Some(i),
        entry_index(a, p) is None ==> forall|j: int| 0 <= j < a.len() ==> b[j].key_ptr != p,
{
    lemma_entry_index(a, p);
    match entry_index(a, p) {
        Some(i) => {
            assert(b[i as int].key_ptr == a[i as int].key_ptr);
            assert forall|j: int| 0 <= j < i implies b[j].key_ptr != p by {
                assert(b[j].key_ptr == a[j].key_ptr);
            }
            lemma_entry_index_first(b, p, i);
        },
        None => {
            assert forall|j: int| 0 <= j < a.len() implies b[j].key_ptr != p by {
                assert(b[j].key_ptr == a[j].key_ptr);
            }
        },
    }
}

fn find_ptr<K, V>(s: &Vec<Entry<K, V>>, p: usize) -> (r: Option<usize>)
    ensures
        match r {
            Some(i) => entry_index(s@, p) == Some(i as nat),
            None => entry_index(s@, p) is None,
        },
{
    proof {
        lemma_entry_index(s@, p);
    }
    let mut i: usize = 0;
    while i < s.len()
        invariant
            i <= s@.len(),
            forall|j: int| 0 <= j < i ==> s@[j].key_ptr != p,
        decreases s@.len() - i,
    {
        if s[i].key_ptr == p {
            proof {
                lemma_entry_index_first(s@, p, i as nat);
            }
            return Some(i);
        }
        i = i + 1;
    }
    None
}

impl<K: Clone, V: Clone> PMap<K, V> {
    /// An empty map.
    pub fn new() -> (m: PMap<K, V>)
        ensures
            m.0@.len() == 0,
    {
        PMap(Vec::new())
    }

    /// A new map with `key_ptr` bound to `val` (see [`assoc_rel`]).
    pub fn assoc(&self, key_ptr: usize, key: &K, val: V) -> (m: PMap<K, V>)
        ensures
            assoc_rel(self.0@, key_ptr, *key, val, m.0@),
    {
        let mut v: Vec<Entry<K, V>> = Vec::new();
        let mut found = false;
        let mut i: usize = 0;
        while i < self.0.len()
            invariant
                i <= self.0@.len(),
                v@.len() == i,
                found == (exists|j: int| 0 <= j < i && self.0@[j].key_ptr == key_ptr),
                forall|j: int|
                    #![trigger v@[j]]
                    0 <= j < i ==> v@[j].key_ptr == self.0@[j].key_ptr && cloned(self.0@[j].key, v@[j].key)
                        && if self.0@[j].key_ptr == key_ptr {
                        cloned(val, v@[j].val)
                    } else {
                        cloned(self.0@[j].val, v@[j].val)
                    },
            decreases self.0@.len() - i,
        {
            let e = &self.0[i];
            if e.key_ptr == key_ptr {
                v.push(Entry { key_ptr: e.key_ptr, key: e.key.clone(), val: val.clone() });
                found = true;
            } else {
                v.push(Entry { key_ptr: e.key_ptr, key: e.key.clone(), val: e.val.clone() });
            }
            i = i + 1;
        }
        proof {
            lemma_entry_index(self.0@, key_ptr);
        }
        if !found {
            v.push(Entry { key_ptr, key: key.clone(), val });
        }
        PMap(v)
    }

    /// The value bound to `key_ptr`, if any.
    pub fn get(&self, key_ptr: usize) -> (r: Option<&V>)
        ensures
            match lookup(self.0@, key_ptr) {
                Some(x) => r matches Some(v) && *v == x,
                None => r is None,
            },
    {
        proof {
            lemma_entry_index(self.0@, key_ptr);
        }
        match find_ptr(&self.0, key_ptr) {
            Some(i) => {
                let e = &self.0[i];
                Some(&e.val)
            },
            None => None,
        }
    }

    /// Every binding of `self` and of `other`, `other`'s values winning
    /// where both bind an identity (the last of `other`'s entries for it):
    /// `self`'s entries come first, in their order, then those of
    /// `other`'s identities that `self` lacks.
    pub fn merge(&self, other: &Self) -> (m: PMap<K, V>)
        ensures
            forall|p: usize| #[trigger] merged(self.0@, other.0@, m.0@, p),
    {
        let mut out: Vec<Entry<K, V>> = Vec::new();
        let mut i: usize = 0;
        while i < self.0.len()
            invariant
                i <= self.0@.len(),
                out@.len() == i,
                forall|j: int|
                    #![trigger out@[j]]
                    0 <= j < i ==> out@[j].key_ptr == self.0@[j].key_ptr && cloned(self.0@[j].val, out@[j].val),
            decreases self.0@.len() - i,
        {
            let e = &self.0[i];
            out.push(Entry { key_ptr: e.key_ptr, key: e.key.clone(), val: e.val.clone() });
            i = i + 1;
        }
        proof {
            assert forall|p: usize| #[trigger] merged(self.0@, other.0@.take(0), out@, p) by {
                lemma_entry_index_same_ptrs(self.0@, out@, p);
                lemma_entry_index(self.0@, p);
                lemma_entry_index(out@, p);
                assert(other.0@.take(0) =~= Seq::<Entry<K, V>>::empty());
            }
        }
        let mut k: usize = 0;
        while k < other.0.len()
            invariant
                k <= other.0@.len(),
                forall|p: usize| #[trigger] merged(self.0@, other.0@.take(k as int), out@, p),
            decreases other.0@.len() - k,
        {
            let e = &other.0[k];
            let ghost before = out@;
            match find_ptr(&out, e.key_ptr) {
                Some(j) => {
                    proof {
                        lemma_entry_index(before, e.key_ptr);
                    }
                    let ne = Entry { key_ptr: e.key_ptr, key: out[j].key.clone(), val: e.val.clone() };
                    out.set(j, ne);
                },
                None => {
                    out.push(Entry { key_ptr: e.key_ptr, key: e.key.clone(), val: e.val.clone() });
                },
            }
            let ghost kk = k as nat;
            k = k + 1;
            proof {
                lemma_merge_step(self.0@, other.0@, kk, before, out@);
                assert(other.0@.take(k as int) == other.0@.take((kk + 1) as int));
            }
        }
        proof {
            assert(other.0@.take(k as int) =~= other.0@);
        }
        PMap(out)
    }

    /// Replace the value bound to `key_ptr` with `val`, keeping the map's
    /// shape; `false` (and no change) when nothing is bound to it.
    pub fn update_in_place(&mut self, key_ptr: usize, val: V) -> (found: bool)
        ensures
            found == (entry_index(old(self).0@, key_ptr) is Some),
            !found ==> final(self).0@ == old(self).0@,
            found ==> final(self).0@.len() == old(self).0@.len() && forall|i: int|
                #![trigger final(self).0@[i]]
                0 <= i < old(self).0@.len() ==> final(self).0@[i].key_ptr == old(self).0@[i].key_ptr
                    && cloned(old(self).0@[i].key, final(self).0@[i].key) && if old(self).0@[i].key_ptr
                    == key_ptr {
                    cloned(val, final(self).0@[i].val)
                } else {
                    cloned(old(self).0@[i].val, final(self).0@[i].val)
                },
    {
        proof {
            lemma_entry_index(self.0@, key_ptr);
        }
        if find_ptr(&self.0, key_ptr).is_none() {
            return false;
        }
        let mut v: Vec<Entry<K, V>> = Vec::new();
        let mut i: usize = 0;
        while i < self.0.len()
            invariant
                i <= self.0@.len(),
                v@.len() == i,
                forall|j: int|
                    #![trigger v@[j]]
                    0 <= j < i ==> v@[j].key_ptr == self.0@[j].key_ptr && cloned(self.0@[j].key, v@[j].key)
                        && if self.0@[j].key_ptr == key_ptr {
                        cloned(val, v@[j].val)
                    } else {
                        cloned(self.0@[j].val, v@[j].val)
                    },
            decreases self.0@.len() - i,
        {
            let e = &self.0[i];
            if e.key_ptr == key_ptr {
                v.push(Entry { key_ptr: e.key_ptr, key: e.key.clone(), val: val.clone() });
            } else {
                v.push(Entry { key_ptr: e.key_ptr, key: e.key.clone(), val: e.val.clone() });
            }
            i = i + 1;
        }
        self.0 = v;
        true
    }
}

/// `m` binds `p` as merging `o` into `s` does: to a clone of `o`'s value
/// for `p` (its last entry) when `o` binds `p`, else to a clone of `s`'s
/// value, else not at all.
pub open spec fn merged<K: Clone, V: Clone>(
    s: Seq<Entry<K, V>>,
    o: Seq<Entry<K, V>>,
    m: Seq<Entry<K, V>>,
    p: usize,
) -> bool {
    match last_index(o, p) {
        Some(q) => lookup(m, p) matches Some(x) && cloned(o[q as int].val, x),
        None => match lookup(s, p) {
            Some(sv) => lookup(m, p) matches Some(x) && cloned(sv, x),
            None => lookup(m, p) is None,
        },
    }
}

proof fn lemma_merge_step<K: Clone, V: Clone>(
    sm: Seq<Entry<K, V>>,
    om: Seq<Entry<K, V>>,
    k: nat,
    before: Seq<Entry<K, V>>,
    after: Seq<Entry<K, V>>,
)
    requires
        k < om.len(),
        forall|p: usize| #[trigger] merged(sm, om.take(k as int), before, p),
        match entry_index(before, om[k as int].key_ptr) {
            Some(j) => after.len() == before.len() && after[j as int].key_ptr == om[k as int].key_ptr
                && cloned(om[k as int].val, after[j as int].val) && forall|i: int|
                0 <= i < before.len() && i != j ==> #[trigger] after[i] == before[i],
            None => after.len() == before.len() + 1 && after[before.len() as int].key_ptr
                == om[k as int].key_ptr && cloned(om[k as int].val, after[before.len() as int].val)
                && forall|i: int| 0 <= i < before.len() ==> #[trigger] after[i] == before[i],
        },
    ensures
        forall|p: usize| #[trigger] merged(sm, om.take((k + 1) as int), after, p),
{
    let t1 = om.take(k as int);
    let t2 = om.take((k + 1) as int);
    let ep = om[k as int].key_ptr;
    assert(t2.drop_last() =~= t1);
    assert(t2.last() == om[k as int]);
    lemma_entry_index(before, ep);
    assert forall|p: usize| #[trigger] merged(sm, t2, after, p) by {
        assert(merged(sm, t1, before, p));
        lemma_entry_index(before, p);
        lemma_entry_index(after, p);
        lemma_last_index(t1, p);
        if p == ep {
            assert(last_index(t2, p) == Some(k));
            match entry_index(before, ep) {
                Some(j) => {
                    assert(after[j as int].key_ptr == p);
                    assert forall|i: int| 0 <= i < j implies after[i].key_ptr != p by {
                        assert(after[i] == before[i]);
                    }
                    lemma_entry_index_first(after, p, j);
                },
                None => {
                    assert forall|i: int| 0 <= i < before.len() implies after[i].key_ptr != p by {
                        assert(after[i] == before[i]);
                    }
                    lemma_entry_index_first(after, p, before.len());
                },
            }
        } else {
            assert(last_index(t2, p) == last_index(t1, p));
            if let Some(q) = last_index(t1, p) {
                assert(t1[q as int] == om[q as int]);
            }
            match entry_index(before, p) {
                Some(i) => {
                    assert(after[i as int] == before[i as int]);
                    assert forall|x: int| 0 <= x < i implies after[x].key_ptr != p by {
                        match entry_index(before, ep) {
                            Some(j) => {
                                if x != j {
                                    assert(after[x] == before[x]);
                                }
                            },
                            None => {
                                assert(after[x] == before[x]);
                            },
                        }
                    }
                    lemma_entry_index_first(after, p, i);
                },
                None => {
                    assert forall|x: int| 0 <= x < after.len() implies after[x].key_ptr != p by {
                        match entry_index(before, ep) {
                            Some(j) => {
                                if x != j {
                                    assert(after[x] == before[x]);
                                }
                            },
                            None => {
                                if x < before.len() {
                                    assert(after[x] == before[x]);
                                }
                            },
                        }
                    }
                },
            }
        }
    }
}

/// Index of the last entry for identity `p`.
pub open spec fn last_index<K, V>(s: Seq<Entry<K, V>>, p: usize) -> Option<nat>
    decreases s.len(),
{
    if s.len() == 0 {
        None
    } else if s.last().key_ptr == p {
        Some((s.len() - 1) as nat)
    } else {
        last_index(s.drop_last(), p)
    }
}

proof fn lemma_last_index<K, V>(s: Seq<Entry<K, V>>, p: usize)
    ensures
        last_index(s, p) matches Some(q) ==> q < s.len(),
    decreases s.len(),
{
    if s.len() > 0 {
        lemma_last_index(s.drop_last(), p);
    }
}

/// A lookup after `assoc(p, key, val)`: `p` gives a clone of `val` (or
/// `val` itself); any other identity gives what it gave before (cloned), or
/// nothing if it gave nothing.
pub proof fn law_lookup_after_assoc<K: Clone, V: Clone>(
    old: Seq<Entry<K, V>>,
    p: usize,
    key: K,
    val: V,
    new: Seq<Entry<K, V>>,
    q: usize,
)
    requires
        assoc_rel(old, p, key, val, new),
    ensures
        lookup(new, p) matches Some(x) && cloned(val, x),
        q != p ==> match lookup(old, q) {
            Some(v) => lookup(new, q) matches Some(x) && cloned(v, x),
            None => lookup(new, q) is None,
        },
{
    lemma_entry_index(old, p);
    lemma_entry_index(old, q);
    lemma_entry_index(new, p);
    lemma_entry_index(new, q);
    lemma_entry_index_same_ptrs(old, new, p);
    lemma_entry_index_same_ptrs(old, new, q);
    match entry_index(old, p) {
        Some(i) => {
            assert(new[i as int].key_ptr == old[i as int].key_ptr);
        },
        None => {
            assert forall|j: int| 0 <= j < old.len() implies new[j].key_ptr != p by {
                assert(new[j].key_ptr == old[j].key_ptr);
            }
            lemma_entry_index_first(new, p, old.len());
        },
    }
    if q != p {
        match entry_index(old, q) {
            Some(i) => {
                assert(new[i as int].key_ptr == old[i as int].key_ptr);
            },
            None => {
                assert forall|j: int| 0 <= j < new.len() implies new[j].key_ptr != q by {
                    if j < old.len() {
                        assert(new[j].key_ptr == old[j].key_ptr);
                    }
                }
            },
        }
    }
}

} // verus!
