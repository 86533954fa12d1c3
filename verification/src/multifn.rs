//! Multimethod dispatch decisions: the method table, the preference table,
//! and how a dispatch value is resolved to a method (exact match, then
//! `isa?` matches, ambiguity settled by preferences, then the default).
//!
//! Dispatch values are numbered by the caller (equal values, equal
//! numbers); the hierarchy's `parents` relation comes as a table.

use vstd::prelude::*;

verus! {

/// The `parents` relation of a hierarchy for the values that matter: each
/// entry lists a value's parents. Listed parents come before their
/// children (a hierarchy has no cycles), so the table is in that order.
pub struct Hierarchy {
    pub parents: Vec<(u64, Vec<u64>)>,
}

/// Why a dispatch value found no method.
#[derive(PartialEq, Eq, Structural, Clone, Copy, Debug)]
pub enum ResolveError {
    /// "No method in multimethod '{name}' for dispatch value: {dv}"
    NoMethod(u64),
    /// "Multiple methods in multimethod '{name}' match dispatch value:
    /// {dv} -> {a} and {b}, and neither is preferred"
    Ambiguous(u64, u64),
}

/// "Preference conflict in multimethod '{name}': {b} is already preferred
/// to {a}"
#[derive(PartialEq, Eq, Structural, Clone, Copy, Debug)]
pub struct PreferConflict {
    pub preferred: u64,
    pub over: u64,
}

/// A multimethod's tables: methods by dispatch value (in the order they
/// were added), the values each value is preferred over, and the default
/// dispatch value.
pub struct DispatchTable<M> {
    pub methods: Vec<(u64, M)>,
    pub prefers: Vec<(u64, Vec<u64>)>,
    pub default_val: u64,
}

/// The view of a table of value lists.
pub open spec fn lists_view(v: Seq<(u64, Vec<u64>)>) -> Seq<(u64, Seq<u64>)> {
    Seq::new(v.len(), |i: int| (v[i].0, v[i].1@))
}

/// Index of the first entry for `k`.
pub open spec fn index_of<T>(t: Seq<(u64, T)>, k: u64) -> Option<nat>
    decreases t.len(),
{
    if t.len() == 0 {
        None
    } else if t.last().0 == k && index_of(t.drop_last(), k) is None {
        Some((t.len() - 1) as nat)
    } else {
        index_of(t.drop_last(), k)
    }
}

/// `1 +` the index of `x`'s entry in the hierarchy table, `0` without one.
pub open spec fn rank(t: Seq<(u64, Seq<u64>)>, x: u64) -> nat {
    match index_of(t, x) {
        Some(i) => i + 1,
        None => 0,
    }
}

/// The parents of `x`.
pub open spec fn parents_of(t: Seq<(u64, Seq<u64>)>, x: u64) -> Seq<u64> {
    match index_of(t, x) {
        Some(i) => t[i as int].1,
        None => Seq::empty(),
    }
}

/// Parents are listed before their children.
pub open spec fn ordered(t: Seq<(u64, Seq<u64>)>) -> bool {
    forall|i: int, j: int|
        0 <= i < t.len() && 0 <= j < t[i].1.len() ==> #[trigger] rank(t, t[i].1[j]) <= i
}

/// `a`'s own preference list names `b`.
pub open spec fn direct(p: Seq<(u64, Seq<u64>)>, a: u64, b: u64) -> bool {
    match index_of(p, a) {
        Some(i) => p[i as int].1.contains(b),
        None => false,
    }
}

/// `a` is preferred over `b`: directly, or over one of `b`'s parents, or
/// one of `a`'s parents is preferred over `b`.
pub open spec fn prefers(p: Seq<(u64, Seq<u64>)>, t: Seq<(u64, Seq<u64>)>, a: u64, b: u64) -> bool
    decreases rank(t, a) + rank(t, b), 2nat, 0nat,
{
    direct(p, a, b) || prefers_via_b(p, t, a, b, 0) || prefers_via_a(p, t, a, b, 0)
}

/// `a` is preferred over some parent of `b` at index `k` or later.
pub open spec fn prefers_via_b(
    p: Seq<(u64, Seq<u64>)>,
    t: Seq<(u64, Seq<u64>)>,
    a: u64,
    b: u64,
    k: nat,
) -> bool
    decreases rank(t, a) + rank(t, b), 1nat, parents_of(t, b).len() - k,
{
    if k >= parents_of(t, b).len() {
        false
    } else {
        let q = parents_of(t, b)[k as int];
        (rank(t, q) < rank(t, b) && prefers(p, t, a, q)) || prefers_via_b(p, t, a, b, k + 1)
    }
}

/// Some parent of `a` at index `k` or later is preferred over `b`.
pub open spec fn prefers_via_a(
    p: Seq<(u64, Seq<u64>)>,
    t: Seq<(u64, Seq<u64>)>,
    a: u64,
    b: u64,
    k: nat,
) -> bool
    decreases rank(t, a) + rank(t, b), 1nat, parents_of(t, a).len() - k,
{
    if k >= parents_of(t, a).len() {
        false
    } else {
        let q = parents_of(t, a)[k as int];
        (rank(t, q) < rank(t, a) && prefers(p, t, q, b)) || prefers_via_a(p, t, a, b, k + 1)
    }
}

/// Candidate `i` of `m` is preferred over every other candidate.
pub open spec fn beats_all(p: Seq<(u64, Seq<u64>)>, t: Seq<(u64, Seq<u64>)>, m: Seq<u64>, i: int) -> bool {
    forall|j: int| 0 <= j < m.len() && j != i ==> #[trigger] prefers(p, t, m[i], m[j])
}

/// The keys of a method table.
pub open spec fn keys_of<M>(t: Seq<(u64, M)>) -> Seq<u64> {
    Seq::new(t.len(), |i: int| t[i].0)
}

/// The indices `i` with `hits[i]`, in order.
pub open spec fn hit_indices(hits: Seq<bool>) -> Seq<nat>
    decreases hits.len(),
{
    if hits.len() == 0 {
        Seq::empty()
    } else if hits.last() {
        hit_indices(hits.drop_last()).push((hits.len() - 1) as nat)
    } else {
        hit_indices(hits.drop_last())
    }
}

/// Which method a dispatch value resolves to, given the keys of the method
/// table, which keys the value `isa?`, the preference table, the
/// hierarchy, and the default dispatch value.
pub open spec fn resolve_spec(
    keys: Seq<u64>,
    hits: Seq<bool>,
    p: Seq<(u64, Seq<u64>)>,
    t: Seq<(u64, Seq<u64>)>,
    default_val: u64,
    dv: u64,
) -> Result<nat, ResolveError> {
    let kv = Seq::new(keys.len(), |i: int| (keys[i], ()));
    match index_of(kv, dv) {
        Some(i) => Ok(i),
        None => {
            let ms = hit_indices(hits);
            let mk = Seq::new(ms.len(), |i: int| keys[ms[i] as int]);
            if ms.len() == 1 {
                Ok(ms[0])
            } else if ms.len() == 0 {
                match index_of(kv, default_val) {
                    Some(i) => Ok(i),
                    None => Err(ResolveError::NoMethod(dv)),
                }
            } else if exists|i: int|
                0 <= i < mk.len() && beats_all(p, t, mk, i) && forall|j: int|
                    0 <= j < mk.len() && j != i ==> !beats_all(p, t, mk, j) {
                let i = choose|i: int|
                    0 <= i < mk.len() && beats_all(p, t, mk, i) && forall|j: int|
                        0 <= j < mk.len() && j != i ==> !beats_all(p, t, mk, j);
                Ok(ms[i])
            } else {
                Err(ResolveError::Ambiguous(mk[0], mk[1]))
            }
        },
    }
}

pub proof fn lemma_index_of<T>(t: Seq<(u64, T)>, k: u64)
    ensures
        index_of(t, k) matches Some(i) ==> i < t.len() && t[i as int].0 == k && forall|j: int|
            0 <= j < i ==> t[j].0 != k,
        index_of(t, k) is None ==> forall|j: int| 0 <= j < t.len() ==> t[j].0 != k,
    decreases t.len(),
{
    if t.len() > 0 {
        let u = t.drop_last();
        lemma_index_of(u, k);
        assert forall|j: int| 0 <= j < u.len() implies #[trigger] u[j] == t[j] by {}
        assert(t.last() == t[t.len() - 1]);
        if t.last().0 == k && index_of(u, k) is None {
            assert(index_of(t, k) == Some((t.len() - 1) as nat));
            assert forall|j: int| 0 <= j < t.len() - 1 implies t[j].0 != k by {
                assert(u[j] == t[j]);
            }
        } else {
            assert(index_of(t, k) == index_of(u, k));
            match index_of(u, k) {
                Some(i) => {
                    assert(u[i as int] == t[i as int]);
                    assert forall|j: int| 0 <= j < i implies t[j].0 != k by {
                        assert(u[j] == t[j]);
                    }
                },
                None => {
                    assert forall|j: int| 0 <= j < t.len() implies t[j].0 != k by {
                        if j < u.len() {
                            assert(u[j] == t[j]);
                        }
                    }
                },
            }
        }
    }
}

proof fn lemma_index_of_from_first<T>(t: Seq<(u64, T)>, k: u64, i: nat)
    requires
        i < t.len(),
        t[i as int].0 == k,
        forall|j: int| 0 <= j < i ==> t[j].0 != k,
    ensures
        index_of(t, k) == Some(i),
{
    lemma_index_of(t, k);
    match index_of(t, k) {
        Some(x) => {
            if x < i {
            } else if x > i {
            }
        },
        None => {},
    }
}

/// A parent comes before its child in an ordered hierarchy table.
proof fn lemma_parent_rank(t: Seq<(u64, Seq<u64>)>, x: u64, k: int)
    requires
        ordered(t),
        0 <= k < parents_of(t, x).len(),
    ensures
        rank(t, parents_of(t, x)[k]) < rank(t, x),
{
    lemma_index_of(t, x);
    let i = index_of(t, x)->0;
    assert(rank(t, t[i as int].1[k]) <= i);
}

/// Index of the first entry for `k` in a table of values.
fn find_index<T>(t: &Vec<(u64, T)>, k: u64) -> (r: Option<usize>)
    ensures
        match r {
            Some(i) => index_of(t@, k) == Some(i as nat),
            None => index_of(t@, k) is None,
        },
{
    proof {
        lemma_index_of(t@, k);
    }
    let mut i: usize = 0;
    while i < t.len()
        invariant
            i <= t@.len(),
            forall|j: int| 0 <= j < i ==> t@[j].0 != k,
        decreases t@.len() - i,
    {
        if t[i].0 == k {
            proof {
                lemma_index_of_from_first(t@, k, i as nat);
            }
            return Some(i);
        }
        i = i + 1;
    }
    None
}

proof fn lemma_lists_index(v: Seq<(u64, Vec<u64>)>, k: u64)
    ensures
        index_of(lists_view(v), k) == index_of(v, k),
    decreases v.len(),
{
    if v.len() > 0 {
        assert(lists_view(v).drop_last() =~= lists_view(v.drop_last()));
        lemma_lists_index(v.drop_last(), k);
    }
}

proof fn lemma_keys_index<M>(t: Seq<(u64, M)>, k: u64)
    ensures
        index_of(Seq::new(keys_of(t).len(), |i: int| (keys_of(t)[i], ())), k) == index_of(t, k),
    decreases t.len(),
{
    let kv = Seq::new(keys_of(t).len(), |i: int| (keys_of(t)[i], ()));
    if t.len() > 0 {
        let kv2 = Seq::new(keys_of(t.drop_last()).len(), |i: int| (keys_of(t.drop_last())[i], ()));
        assert(kv.drop_last() =~= kv2);
        lemma_keys_index(t.drop_last(), k);
    }
}

/// Does `v` hold `x`?
fn contains_u64(v: &Vec<u64>, x: u64) -> (r: bool)
    ensures
        r == v@.contains(x),
{
    let mut i: usize = 0;
    while i < v.len()
        invariant
            i <= v@.len(),
            forall|j: int| 0 <= j < i ==> v@[j] != x,
        decreases v@.len() - i,
    {
        if v[i] == x {
            assert(v@[i as int] == x);
            return true;
        }
        i = i + 1;
    }
    false
}

impl View for Hierarchy {
    type V = Seq<(u64, Seq<u64>)>;

    open spec fn view(&self) -> Seq<(u64, Seq<u64>)> {
        lists_view(self.parents@)
    }
}

impl Hierarchy {
    /// [`ordered`]: is every listed parent listed before its child? The
    /// resolution functions need this of the table they are given.
    pub fn is_ordered(&self) -> (r: bool)
        ensures
            r == ordered(self@),
    {
        let ghost t = self@;
        let mut i: usize = 0;
        while i < self.parents.len()
            invariant
                i <= self.parents@.len(),
                t == self@,
                t.len() == self.parents@.len(),
                forall|a: int, b: int|
                    0 <= a < i && 0 <= b < t[a].1.len() ==> #[trigger] rank(t, t[a].1[b]) <= a,
            decreases self.parents@.len() - i,
        {
            let ps = &self.parents[i].1;
            assert(t[i as int].1 == ps@);
            let mut j: usize = 0;
            while j < ps.len()
                invariant
                    i < self.parents@.len(),
                    j <= ps@.len(),
                    t == self@,
                    t.len() == self.parents@.len(),
                    t[i as int].1 == ps@,
                    forall|b: int| 0 <= b < j ==> #[trigger] rank(t, t[i as int].1[b]) <= i,
                decreases ps@.len() - j,
            {
                let p = ps[j];
                proof {
                    lemma_lists_index(self.parents@, p);
                    lemma_index_of(self.parents@, p);
                }
                let n: usize = self.parents.len();
                let found = find_index(&self.parents, p);
                let rk: usize = match found {
                    Some(x) => {
                        assert(x < n);
                        x + 1
                    },
                    None => 0,
                };
                assert(rk == rank(t, p));
                if rk > i {
                    assert(rank(t, t[i as int].1[j as int]) > i);
                    return false;
                }
                j = j + 1;
            }
            i = i + 1;
        }
        true
    }
}

/// Every parent listed for an entry of `out` is the key of an earlier
/// entry, or is no key of the table at all.
pub open spec fn parents_placed(out: Seq<(u64, Vec<u64>)>, keys: Seq<u64>) -> bool {
    forall|i: int, j: int|
        0 <= i < out.len() && 0 <= j < out[i].1@.len() ==> (exists|k: int|
            0 <= k < i && #[trigger] out[k].0 == out[i].1@[j]) || !keys.contains(#[trigger] out[i].1@[j])
}

/// Can an entry with parents `ps` come next after `out`: is each parent
/// the key of an entry of `out`, or no key of the table (`keys`)?
fn can_place(ps: &Vec<u64>, out: &Vec<(u64, Vec<u64>)>, keys: &Vec<u64>) -> (r: bool)
    ensures
        r == forall|j: int|
            0 <= j < ps@.len() ==> (exists|k: int| 0 <= k < out@.len() && #[trigger] out@[k].0 == ps@[j])
                || !keys@.contains(#[trigger] ps@[j]),
{
    let mut j: usize = 0;
    while j < ps.len()
        invariant
            j <= ps@.len(),
            forall|x: int|
                0 <= x < j ==> (exists|k: int| 0 <= k < out@.len() && #[trigger] out@[k].0 == ps@[x])
                    || !keys@.contains(#[trigger] ps@[x]),
        decreases ps@.len() - j,
    {
        let q = ps[j];
        let mut found = false;
        let mut k: usize = 0;
        while k < out.len()
            invariant
                k <= out@.len(),
                found == (exists|y: int| 0 <= y < k && #[trigger] out@[y].0 == q),
            decreases out@.len() - k,
        {
            if out[k].0 == q {
                found = true;
            }
            k = k + 1;
        }
        if !found && contains_u64(keys, q) {
            assert forall|y: int| 0 <= y < out@.len() implies #[trigger] out@[y].0 != ps@[j as int] by {}
            return false;
        }
        j = j + 1;
    }
    true
}

proof fn lemma_rank_placed(t: Seq<(u64, Vec<u64>)>, q: u64, k: int)
    requires
        0 <= k < t.len(),
        t[k].0 == q,
    ensures
        rank(lists_view(t), q) <= k + 1,
{
    lemma_lists_index(t, q);
    lemma_index_of(t, q);
    match index_of(t, q) {
        Some(x) => {
            if x > k {
                assert(t[k].0 != q);
            }
        },
        None => {
            assert(t[k].0 != q);
        },
    }
}

/// Moving the last of `r` to the end of `a` or of `b` keeps what
/// `a + b + r` holds.
proof fn lemma_move_last<T>(a: Seq<T>, b: Seq<T>, r: Seq<T>, e: T)
    ensures
        (a.push(e) + b + r).to_multiset() == (a + b + r.push(e)).to_multiset(),
        (a + b.push(e) + r).to_multiset() == (a + b + r.push(e)).to_multiset(),
{
    broadcast use vstd::multiset::group_multiset_axioms;
    broadcast use vstd::seq_lib::lemma_multiset_commutative;
    broadcast use vstd::seq_lib::to_multiset_build;

    assert((a.push(e) + b + r).to_multiset() =~= a.push(e).to_multiset().add(b.to_multiset()).add(
        r.to_multiset(),
    )) by {
        assert((a.push(e) + b + r).to_multiset() == (a.push(e) + b).to_multiset().add(r.to_multiset()));
        assert((a.push(e) + b).to_multiset() == a.push(e).to_multiset().add(b.to_multiset()));
    }
    assert((a + b + r.push(e)).to_multiset() =~= a.to_multiset().add(b.to_multiset()).add(
        r.push(e).to_multiset(),
    )) by {
        assert((a + b + r.push(e)).to_multiset() == (a + b).to_multiset().add(r.push(e).to_multiset()));
        assert((a + b).to_multiset() == a.to_multiset().add(b.to_multiset()));
    }
    assert((a + b.push(e) + r).to_multiset() =~= a.to_multiset().add(b.push(e).to_multiset()).add(
        r.to_multiset(),
    )) by {
        assert((a + b.push(e) + r).to_multiset() == (a + b.push(e)).to_multiset().add(r.to_multiset()));
        assert((a + b.push(e)).to_multiset() == a.to_multiset().add(b.push(e).to_multiset()));
    }
    assert(a.push(e).to_multiset() == a.to_multiset().insert(e));
    assert(b.push(e).to_multiset() == b.to_multiset().insert(e));
    assert(r.push(e).to_multiset() == r.to_multiset().insert(e));
}

/// `t`'s entries can be listed so that every listed parent comes before
/// its child (the order that [`Hierarchy`] asks for).
pub open spec fn orderable(t: Seq<(u64, Vec<u64>)>) -> bool {
    exists|s: Seq<(u64, Vec<u64>)>|
        s.to_multiset() == t.to_multiset() && #[trigger] ordered(lists_view(s))
}

/// `q` is the key of an entry of `t`, and of no entry of `done`.
spec fn unplaced_key(t: Seq<(u64, Vec<u64>)>, done: Seq<(u64, Vec<u64>)>, q: u64) -> bool {
    &&& exists|i: int| 0 <= i < t.len() && #[trigger] t[i].0 == q
    &&& forall|d: int| 0 <= d < done.len() ==> #[trigger] done[d].0 != q
}

/// One of `e`'s parents is an unplaced key.
spec fn blocked(e: (u64, Vec<u64>), t: Seq<(u64, Vec<u64>)>, done: Seq<(u64, Vec<u64>)>) -> bool {
    exists|j: int| 0 <= j < e.1@.len() && #[trigger] unplaced_key(t, done, e.1@[j])
}

proof fn lemma_contains_same<T>(a: Seq<T>, b: Seq<T>, x: T)
    requires
        a.to_multiset() == b.to_multiset(),
        a.contains(x),
    ensures
        b.contains(x),
{
    vstd::seq_lib::to_multiset_contains(a, x);
    vstd::seq_lib::to_multiset_contains(b, x);
}

/// In an ordered arrangement `s` of `t`, where `done + stuck` holds
/// `t`'s entries and every entry of `stuck` is blocked, none of the first
/// `n` entries has an unplaced key.
proof fn lemma_no_unplaced_prefix(
    t: Seq<(u64, Vec<u64>)>,
    done: Seq<(u64, Vec<u64>)>,
    stuck: Seq<(u64, Vec<u64>)>,
    s: Seq<(u64, Vec<u64>)>,
    n: int,
)
    requires
        (done + stuck).to_multiset() == t.to_multiset(),
        forall|k: int| 0 <= k < stuck.len() ==> #[trigger] blocked(stuck[k], t, done),
        s.to_multiset() == t.to_multiset(),
        ordered(lists_view(s)),
        0 <= n <= s.len(),
    ensures
        forall|x: int| 0 <= x < n ==> !unplaced_key(t, done, #[trigger] s[x].0),
    decreases n,
{
    if n > 0 {
        lemma_no_unplaced_prefix(t, done, stuck, s, n - 1);
        let x = n - 1;
        if unplaced_key(t, done, s[x].0) {
            let all = done + stuck;
            assert(s.contains(s[x]));
            lemma_contains_same(s, all, s[x]);
            let i = choose|i: int| 0 <= i < all.len() && all[i] == s[x];
            if i < done.len() {
                assert(done[i].0 == s[x].0);
            }
            let k = i - done.len();
            assert(stuck[k] == s[x]);
            assert(blocked(stuck[k], t, done));
            let j = choose|j: int| 0 <= j < s[x].1@.len() && #[trigger] unplaced_key(t, done, s[x].1@[j]);
            let p = s[x].1@[j];
            let lv = lists_view(s);
            assert(lv[x].1[j] == p);
            assert(rank(lv, lv[x].1[j]) <= x);
            let i2 = choose|i2: int| 0 <= i2 < t.len() && #[trigger] t[i2].0 == p;
            assert(t.contains(t[i2]));
            lemma_contains_same(t, s, t[i2]);
            let y2 = choose|y: int| 0 <= y < s.len() && s[y] == t[i2];
            lemma_lists_index(s, p);
            lemma_index_of(s, p);
            assert(s[y2].0 == p);
            match index_of(s, p) {
                Some(y) => {
                    assert(s[y as int].0 == p);
                    assert(!unplaced_key(t, done, s[y as int].0));
                },
                None => {},
            }
        }
    }
}

/// Where `done + stuck` holds `t`'s entries, `stuck` is not empty, and
/// each entry of `stuck` has a parent that is the key of an entry of `t`
/// but of no entry of `done`, no arrangement of `t` is ordered.
proof fn lemma_stuck_unorderable(
    t: Seq<(u64, Vec<u64>)>,
    done: Seq<(u64, Vec<u64>)>,
    stuck: Seq<(u64, Vec<u64>)>,
)
    requires
        (done + stuck).to_multiset() == t.to_multiset(),
        stuck.len() > 0,
        forall|k: int| 0 <= k < stuck.len() ==> #[trigger] blocked(stuck[k], t, done),
    ensures
        !orderable(t),
{
    assert forall|s: Seq<(u64, Vec<u64>)>| s.to_multiset() == t.to_multiset() implies !#[trigger] ordered(
        lists_view(s),
    ) by {
        if ordered(lists_view(s)) {
            lemma_no_unplaced_prefix(t, done, stuck, s, s.len() as int);
            assert(blocked(stuck[0], t, done));
            let j = choose|j: int| 0 <= j < stuck[0].1@.len() && #[trigger] unplaced_key(t, done, stuck[0].1@[j]);
            let p = stuck[0].1@[j];
            let i = choose|i: int| 0 <= i < t.len() && #[trigger] t[i].0 == p;
            assert(t.contains(t[i]));
            lemma_contains_same(t, s, t[i]);
            let y = choose|y: int| 0 <= y < s.len() && s[y] == t[i];
            assert(!unplaced_key(t, done, s[y].0));
        }
    }
}

/// `t` with its entries reordered so that listed parents come before
/// their children (as [`Hierarchy`] asks); `None` exactly when no such
/// order exists ([`orderable`]), because some entries' parents lead back
/// to them.
pub fn order_hierarchy(t: Vec<(u64, Vec<u64>)>) -> (r: Option<Hierarchy>)
    ensures
        r is Some <==> orderable(t@),
        r matches Some(h) ==> ordered(h@) && h.parents@.to_multiset() == t@.to_multiset(),
{
    let ghost t0 = t@;
    let mut keys: Vec<u64> = Vec::new();
    let mut i: usize = 0;
    while i < t.len()
        invariant
            i <= t@.len(),
            t@ == t0,
            keys@.len() == i,
            forall|k: int| 0 <= k < i ==> keys@[k] == t0[k].0,
        decreases t@.len() - i,
    {
        keys.push(t[i].0);
        i = i + 1;
    }
    assert forall|k: int| 0 <= k < t0.len() implies keys@.contains(#[trigger] t0[k].0) by {
        assert(keys@[k] == t0[k].0);
    }
    let mut out: Vec<(u64, Vec<u64>)> = Vec::new();
    let mut rest = t;
    assert(out@ + rest@ =~= t0);
    while rest.len() > 0
        invariant
            (out@ + rest@).to_multiset() == t0.to_multiset(),
            keys@.len() == t0.len(),
            forall|k: int| 0 <= k < t0.len() ==> keys@[k] == #[trigger] t0[k].0,
            forall|k: int| 0 <= k < rest@.len() ==> keys@.contains(#[trigger] rest@[k].0),
            forall|k: int| 0 <= k < out@.len() ==> keys@.contains(#[trigger] out@[k].0),
            parents_placed(out@, keys@),
        ensures
            (out@ + rest@).to_multiset() == t0.to_multiset(),
            forall|k: int| 0 <= k < out@.len() ==> keys@.contains(#[trigger] out@[k].0),
            parents_placed(out@, keys@),
            rest@.len() > 0 ==> forall|k: int| 0 <= k < rest@.len() ==> #[trigger] blocked(rest@[k], t0, out@),
        decreases rest@.len(),
    {
        let ghost out0 = out@;
        let ghost rest0 = rest@;
        let mut next: Vec<(u64, Vec<u64>)> = Vec::new();
        let mut placed_any = false;
        assert(out@ + next@ + rest@ =~= out@ + rest@);
        while rest.len() > 0
            invariant
                (out@ + next@ + rest@).to_multiset() == t0.to_multiset(),
                forall|k: int| 0 <= k < rest@.len() ==> keys@.contains(#[trigger] rest@[k].0),
                forall|k: int| 0 <= k < next@.len() ==> keys@.contains(#[trigger] next@[k].0),
                forall|k: int| 0 <= k < out@.len() ==> keys@.contains(#[trigger] out@[k].0),
                parents_placed(out@, keys@),
                out@.len() >= out0.len(),
                next@.len() + rest@.len() + (out@.len() - out0.len()) == rest0.len(),
                placed_any == (out@.len() > out0.len()),
                keys@.len() == t0.len(),
                forall|k: int| 0 <= k < t0.len() ==> keys@[k] == #[trigger] t0[k].0,
                !placed_any ==> forall|k: int| 0 <= k < next@.len() ==> #[trigger] blocked(next@[k], t0, out@),
            decreases rest@.len(),
        {
            let ghost before_rest = rest@;
            let ghost before_out = out@;
            let ghost before_next = next@;
            let e = rest.pop().unwrap();
            assert(before_rest == rest@.push(e));
            assert(keys@.contains(before_rest[before_rest.len() - 1].0));
            if can_place(&e.1, &out, &keys) {
                out.push(e);
                placed_any = true;
                proof {
                    let n = before_out.len() as int;
                    assert forall|x: int, j: int|
                        0 <= x < out@.len() && 0 <= j < out@[x].1@.len() implies (exists|k: int|
                        0 <= k < x && #[trigger] out@[k].0 == out@[x].1@[j]) || !keys@.contains(
                        #[trigger] out@[x].1@[j],
                    ) by {
                        if x < n {
                            assert(out@[x] == before_out[x]);
                            if keys@.contains(before_out[x].1@[j]) {
                                let k = choose|k: int| 0 <= k < x && #[trigger] before_out[k].0 == before_out[x].1@[j];
                                assert(out@[k] == before_out[k]);
                            }
                        } else {
                            assert(out@[x] == e);
                            if keys@.contains(e.1@[j]) {
                                let k = choose|k: int| 0 <= k < before_out.len() && #[trigger] before_out[k].0 == e.1@[j];
                                assert(out@[k] == before_out[k]);
                            }
                        }
                    }
                    lemma_move_last(before_out, next@, rest@, e);
                    assert(out@ == before_out.push(e));
                }
            } else {
                next.push(e);
                proof {
                    lemma_move_last(out@, before_next, rest@, e);
                    assert(next@ == before_next.push(e));
                    let j = choose|j: int|
                        0 <= j < e.1@.len() && !((exists|k: int| 0 <= k < out@.len() && #[trigger] out@[k].0 == e.1@[j])
                            || !keys@.contains(#[trigger] e.1@[j]));
                    let i = choose|i: int| 0 <= i < keys@.len() && keys@[i] == e.1@[j];
                    assert(t0[i].0 == e.1@[j]);
                    assert(unplaced_key(t0, out@, e.1@[j]));
                    assert(blocked(e, t0, out@));
                    assert forall|k: int| 0 <= k < next@.len() && !placed_any implies #[trigger] blocked(next@[k], t0, out@) by {
                        if k < before_next.len() {
                            assert(next@[k] == before_next[k]);
                        }
                    }
                }
            }
            proof {
                assert forall|k: int| 0 <= k < rest@.len() implies keys@.contains(#[trigger] rest@[k].0) by {
                    assert(rest@[k] == before_rest[k]);
                }
                assert forall|k: int| 0 <= k < next@.len() implies keys@.contains(#[trigger] next@[k].0) by {
                    if k < before_next.len() {
                        assert(next@[k] == before_next[k]);
                    }
                }
                assert forall|k: int| 0 <= k < out@.len() implies keys@.contains(#[trigger] out@[k].0) by {
                    if k < before_out.len() {
                        assert(out@[k] == before_out[k]);
                    }
                }
            }
        }
        assert(out@ + next@ + rest@ =~= out@ + next@);
        rest = next;
        if !placed_any {
            break;
        }
    }
    if rest.len() > 0 {
        proof {
            lemma_stuck_unorderable(t0, out@, rest@);
        }
        return None;
    }
    proof {
        assert(out@ + rest@ =~= out@);
        let tv = lists_view(out@);
        assert forall|x: int, j: int| 0 <= x < tv.len() && 0 <= j < tv[x].1.len() implies #[trigger] rank(
            tv,
            tv[x].1[j],
        ) <= x by {
            let q = out@[x].1@[j];
            assert(tv[x].1[j] == q);
            if keys@.contains(q) {
                let k = choose|k: int| 0 <= k < x && #[trigger] out@[k].0 == out@[x].1@[j];
                lemma_rank_placed(out@, q, k);
            } else {
                lemma_lists_index(out@, q);
                lemma_index_of(out@, q);
                match index_of(out@, q) {
                    Some(y) => {
                        assert(keys@.contains(out@[y as int].0));
                    },
                    None => {},
                }
            }
        }
        assert(ordered(lists_view(out@)));
    }
    Some(Hierarchy { parents: out })
}

impl<M> DispatchTable<M> {
    /// The preference table.
    pub open spec fn prefs(&self) -> Seq<(u64, Seq<u64>)> {
        lists_view(self.prefers@)
    }

    /// The keys of the method table.
    pub open spec fn keys(&self) -> Seq<u64> {
        keys_of(self.methods@)
    }

    /// Empty tables with default dispatch value `default_val`.
    pub fn new(default_val: u64) -> (r: DispatchTable<M>)
        ensures
            r.methods@.len() == 0,
            r.prefers@.len() == 0,
            r.default_val == default_val,
    {
        DispatchTable { methods: Vec::new(), prefers: Vec::new(), default_val }
    }

    /// Install `method` for dispatch value `dv`, replacing the method it
    /// had (in its place) or adding it at the end.
    pub fn add_method(&mut self, dv: u64, method: M)
        ensures
            final(self).prefers@ == old(self).prefers@,
            final(self).default_val == old(self).default_val,
            match index_of(old(self).methods@, dv) {
                Some(i) => final(self).methods@ == old(self).methods@.update(i as int, (dv, method)),
                None => final(self).methods@ == old(self).methods@.push((dv, method)),
            },
    {
        proof {
            lemma_index_of(self.methods@, dv);
        }
        match find_index(&self.methods, dv) {
            Some(i) => {
                self.methods.set(i, (dv, method));
            },
            None => {
                self.methods.push((dv, method));
            },
        }
    }

    /// Remove the method for `dv`, if there is one; the others keep their
    /// order.
    pub fn remove_method(&mut self, dv: u64)
        ensures
            final(self).prefers@ == old(self).prefers@,
            final(self).default_val == old(self).default_val,
            match index_of(old(self).methods@, dv) {
                Some(i) => final(self).methods@ == old(self).methods@.remove(i as int),
                None => final(self).methods@ == old(self).methods@,
            },
    {
        proof {
            lemma_index_of(self.methods@, dv);
        }
        match find_index(&self.methods, dv) {
            Some(i) => {
                self.methods.remove(i);
            },
            None => {},
        }
    }

    /// Remove every method.
    pub fn remove_all_methods(&mut self)
        ensures
            final(self).methods@.len() == 0,
            final(self).prefers@ == old(self).prefers@,
            final(self).default_val == old(self).default_val,
    {
        self.methods.clear();
    }

    /// The method for `dv` exactly, if there is one.
    pub fn find_method(&self, dv: u64) -> (r: Option<&M>)
        ensures
            match index_of(self.methods@, dv) {
                Some(i) => r matches Some(m) && *m == self.methods@[i as int].1,
                None => r is None,
            },
    {
        proof {
            lemma_index_of(self.methods@, dv);
        }
        match find_index(&self.methods, dv) {
            Some(i) => {
                let e = &self.methods[i];
                assert(*e == self.methods@[i as int]);
                Some(&e.1)
            },
            None => None,
        }
    }

    /// [`prefers`]: is `a` preferred over `b`?
    pub fn prefers(&self, a: u64, b: u64, h: &Hierarchy) -> (r: bool)
        requires
            ordered(h@),
        ensures
            r == prefers(self.prefs(), h@, a, b),
        decreases rank(h@, a) + rank(h@, b), 2nat, 0nat,
    {
        let ghost p = self.prefs();
        let ghost t = h@;
        proof {
            lemma_lists_index(self.prefers@, a);
            lemma_lists_index(h.parents@, a);
            lemma_lists_index(h.parents@, b);
            lemma_index_of(self.prefers@, a);
            lemma_index_of(h.parents@, a);
            lemma_index_of(h.parents@, b);
        }
        match find_index(&self.prefers, a) {
            Some(i) => {
                let e = &self.prefers[i];
                assert(p[i as int] == (e.0, e.1@));
                if contains_u64(&e.1, b) {
                    assert(direct(p, a, b));
                    return true;
                }
            },
            None => {},
        }
        assert(!direct(p, a, b));
        match find_index(&h.parents, b) {
            Some(bi) => {
                let e = &h.parents[bi];
                let ps = &e.1;
                assert(t[bi as int] == (e.0, e.1@));
                assert(parents_of(t, b) == ps@);
                let mut k: usize = 0;
                while k < ps.len()
                    invariant
                        k <= ps@.len(),
                        ordered(t),
                        t == h@,
                        p == self.prefs(),
                        parents_of(t, b) == ps@,
                        prefers_via_b(p, t, a, b, 0) == prefers_via_b(p, t, a, b, k as nat),
                    decreases ps@.len() - k,
                {
                    let q = ps[k];
                    proof {
                        lemma_parent_rank(t, b, k as int);
                    }
                    if self.prefers(a, q, h) {
                        return true;
                    }
                    k = k + 1;
                }
            },
            None => {},
        }
        assert(!prefers_via_b(p, t, a, b, 0));
        match find_index(&h.parents, a) {
            Some(ai) => {
                let e = &h.parents[ai];
                let ps = &e.1;
                assert(t[ai as int] == (e.0, e.1@));
                assert(parents_of(t, a) == ps@);
                let mut k: usize = 0;
                while k < ps.len()
                    invariant
                        k <= ps@.len(),
                        ordered(t),
                        t == h@,
                        p == self.prefs(),
                        parents_of(t, a) == ps@,
                        prefers_via_a(p, t, a, b, 0) == prefers_via_a(p, t, a, b, k as nat),
                    decreases ps@.len() - k,
                {
                    let q = ps[k];
                    proof {
                        lemma_parent_rank(t, a, k as int);
                    }
                    if self.prefers(q, b, h) {
                        return true;
                    }
                    k = k + 1;
                }
            },
            None => {},
        }
        false
    }

    /// Among the candidate dispatch values `m`, the index of the one
    /// preferred over all the others, if exactly one is.
    pub fn pick_preferred(&self, m: &Vec<u64>, h: &Hierarchy) -> (r: Option<usize>)
        requires
            ordered(h@),
        ensures
            match r {
                Some(i) => i < m@.len() && beats_all(self.prefs(), h@, m@, i as int) && forall|j: int|
                    0 <= j < m@.len() && j != i ==> !beats_all(self.prefs(), h@, m@, j),
                None => forall|i: int|
                    0 <= i < m@.len() && beats_all(self.prefs(), h@, m@, i) ==> exists|j: int|
                        0 <= j < m@.len() && j != i && beats_all(self.prefs(), h@, m@, j),
            },
    {
        let ghost p = self.prefs();
        let ghost t = h@;
        let mut best: Option<usize> = None;
        let mut i: usize = 0;
        while i < m.len()
            invariant
                i <= m@.len(),
                ordered(t),
                t == h@,
                p == self.prefs(),
                match best {
                    Some(b) => b < i && beats_all(p, t, m@, b as int) && forall|j: int|
                        0 <= j < i && j != b ==> !beats_all(p, t, m@, j),
                    None => forall|j: int| 0 <= j < i ==> !beats_all(p, t, m@, j),
                },
            decreases m@.len() - i,
        {
            let mut all = true;
            let mut j: usize = 0;
            while j < m.len()
                invariant
                    i < m@.len(),
                    j <= m@.len(),
                    ordered(t),
                    t == h@,
                    p == self.prefs(),
                    all == (forall|x: int| 0 <= x < j && x != i ==> #[trigger] prefers(p, t, m@[i as int], m@[x])),
                decreases m@.len() - j,
            {
                if j != i && all {
                    if !self.prefers(m[i], m[j], h) {
                        all = false;
                    }
                }
                j = j + 1;
            }
            if all {
                if best.is_some() {
                    let b = best.unwrap();
                    assert(beats_all(p, t, m@, i as int));
                    assert(beats_all(p, t, m@, b as int));
                    proof {
                        assert forall|x: int| 0 <= x < m@.len() && beats_all(p, t, m@, x) implies exists|y: int|
                            0 <= y < m@.len() && y != x && beats_all(p, t, m@, y) by {
                            if x == i {
                                assert(beats_all(p, t, m@, b as int));
                            } else {
                                assert(beats_all(p, t, m@, i as int));
                            }
                        }
                    }
                    return None;
                }
                best = Some(i);
            }
            i = i + 1;
        }
        match best {
            Some(b) => {
                assert forall|j: int| 0 <= j < m@.len() && j != b implies !beats_all(p, t, m@, j) by {}
            },
            None => {},
        }
        best
    }

    /// The values whose `isa?` flag is set, in table order, with their
    /// indices.
    fn hits_of(&self, hits: &Vec<bool>) -> (r: (Vec<usize>, Vec<u64>))
        requires
            hits@.len() == self.methods@.len(),
        ensures
            r.0@.len() == hit_indices(hits@).len(),
            forall|i: int| 0 <= i < r.0@.len() ==> r.0@[i] == hit_indices(hits@)[i],
            r.1@ == Seq::new(hit_indices(hits@).len(), |i: int| self.keys()[hit_indices(hits@)[i] as int]),
    {
        let mut idx: Vec<usize> = Vec::new();
        let mut ks: Vec<u64> = Vec::new();
        let mut i: usize = 0;
        while i < hits.len()
            invariant
                i <= hits@.len(),
                hits@.len() == self.methods@.len(),
                idx@.len() == hit_indices(hits@.take(i as int)).len(),
                forall|x: int| 0 <= x < idx@.len() ==> idx@[x] == hit_indices(hits@.take(i as int))[x],
                forall|x: int| 0 <= x < idx@.len() ==> idx@[x] < i,
                ks@ == Seq::new(idx@.len(), |x: int| self.keys()[idx@[x] as int]),
            decreases hits@.len() - i,
        {
            assert(hits@.take(i + 1).drop_last() =~= hits@.take(i as int));
            if hits[i] {
                idx.push(i);
                ks.push(self.methods[i].0);
            }
            proof {
                assert(ks@ =~= Seq::new(idx@.len(), |x: int| self.keys()[idx@[x] as int]));
            }
            i = i + 1;
        }
        assert(hits@.take(i as int) =~= hits@);
        proof {
            assert(ks@ =~= Seq::new(hit_indices(hits@).len(), |x: int| self.keys()[hit_indices(hits@)[x] as int]));
        }
        (idx, ks)
    }

    /// [`resolve_spec`]: the index of the method `dv` resolves to, where
    /// `hits[i]` says whether `dv` `isa?` the `i`th key.
    pub fn resolve_method(&self, dv: u64, hits: &Vec<bool>, h: &Hierarchy) -> (r: Result<usize, ResolveError>)
        requires
            hits@.len() == self.methods@.len(),
            ordered(h@),
        ensures
            match resolve_spec(self.keys(), hits@, self.prefs(), h@, self.default_val, dv) {
                Ok(i) => r == Ok::<usize, ResolveError>(i as usize) && i < self.methods@.len(),
                Err(e) => r == Err::<usize, ResolveError>(e),
            },
    {
        proof {
            lemma_keys_index(self.methods@, dv);
            lemma_keys_index(self.methods@, self.default_val);
            lemma_index_of(self.methods@, dv);
            lemma_index_of(self.methods@, self.default_val);
        }
        match find_index(&self.methods, dv) {
            Some(i) => {
                return Ok(i);
            },
            None => {},
        }
        let (idx, ks) = self.hits_of(hits);
        let ghost ms = hit_indices(hits@);
        let ghost mk = Seq::new(ms.len(), |i: int| self.keys()[ms[i] as int]);
        assert(ks@ == mk);
        proof {
            lemma_hit_indices_bound(hits@);
        }
        if idx.len() == 1 {
            return Ok(idx[0]);
        }
        if idx.len() == 0 {
            return match find_index(&self.methods, self.default_val) {
                Some(i) => Ok(i),
                None => Err(ResolveError::NoMethod(dv)),
            };
        }
        match self.pick_preferred(&ks, h) {
            Some(j) => {
                proof {
                    let c = choose|i: int|
                        0 <= i < mk.len() && beats_all(self.prefs(), h@, mk, i) && forall|j: int|
                            0 <= j < mk.len() && j != i ==> !beats_all(self.prefs(), h@, mk, j);
                    assert(c == j as int);
                }
                Ok(idx[j])
            },
            None => Err(ResolveError::Ambiguous(ks[0], ks[1])),
        }
    }

    /// Record that `a` is preferred over `b` (added to the end of `a`'s
    /// list); refused when `b` is already preferred over `a`.
    pub fn prefer_method(&mut self, a: u64, b: u64, h: &Hierarchy) -> (r: Result<(), PreferConflict>)
        requires
            ordered(h@),
        ensures
            final(self).methods@ == old(self).methods@,
            final(self).default_val == old(self).default_val,
            prefers(old(self).prefs(), h@, b, a) ==> r == Err::<(), PreferConflict>(
                PreferConflict { preferred: b, over: a },
            ) && final(self).prefers@ == old(self).prefers@,
            !prefers(old(self).prefs(), h@, b, a) ==> r is Ok && match index_of(old(self).prefs(), a) {
                Some(i) => final(self).prefs() == old(self).prefs().update(
                    i as int,
                    (a, old(self).prefs()[i as int].1.push(b)),
                ),
                None => final(self).prefs() == old(self).prefs().push((a, seq![b])),
            },
    {
        if self.prefers(b, a, h) {
            return Err(PreferConflict { preferred: b, over: a });
        }
        proof {
            lemma_lists_index(self.prefers@, a);
            lemma_index_of(self.prefers@, a);
        }
        let ghost before = self.prefers@;
        match find_index(&self.prefers, a) {
            Some(i) => {
                let mut list = self.prefers[i].1.clone();
                assert(list@ =~= before[i as int].1@);
                assert(lists_view(before)[i as int] == (a, before[i as int].1@));
                list.push(b);
                let ghost l2 = list@;
                self.prefers.set(i, (a, list));
                assert(self.prefs() =~= lists_view(before).update(i as int, (a, l2)));
            },
            None => {
                let mut list: Vec<u64> = Vec::new();
                list.push(b);
                let ghost l2 = list@;
                self.prefers.push((a, list));
                assert(l2 =~= seq![b]);
                assert(self.prefs() =~= lists_view(before).push((a, seq![b])));
            },
        }
        Ok(())
    }
}

proof fn lemma_hit_indices_bound(hits: Seq<bool>)
    ensures
        forall|i: int| 0 <= i < hit_indices(hits).len() ==> hit_indices(hits)[i] < hits.len(),
    decreases hits.len(),
{
    if hits.len() > 0 {
        let u = hits.drop_last();
        lemma_hit_indices_bound(u);
        if hits.last() {
            assert(hit_indices(hits) == hit_indices(u).push((hits.len() - 1) as nat));
        } else {
            assert(hit_indices(hits) == hit_indices(u));
        }
    }
}

/// After `prefer_method(a, b)` succeeds, `a` is preferred over `b`.
pub proof fn law_prefer_then_prefers(
    before: Seq<(u64, Seq<u64>)>,
    after: Seq<(u64, Seq<u64>)>,
    t: Seq<(u64, Seq<u64>)>,
    a: u64,
    b: u64,
)
    requires
        match index_of(before, a) {
            Some(i) => after == before.update(i as int, (a, before[i as int].1.push(b))),
            None => after == before.push((a, seq![b])),
        },
    ensures
        prefers(after, t, a, b),
{
    lemma_index_of(before, a);
    match index_of(before, a) {
        Some(i) => {
            lemma_index_of_from_first(after, a, i);
            assert(after[i as int].1[after[i as int].1.len() - 1] == b);
        },
        None => {
            lemma_index_of_from_first(after, a, before.len());
            assert(after[before.len() as int].1[0] == b);
        },
    }
}

/// After `add_method(dv, m)`, the method found for `dv` is `m`.
pub proof fn law_add_then_find<M>(before: Seq<(u64, M)>, after: Seq<(u64, M)>, dv: u64, m: M)
    requires
        match index_of(before, dv) {
            Some(i) => after == before.update(i as int, (dv, m)),
            None => after == before.push((dv, m)),
        },
    ensures
        index_of(after, dv) matches Some(i) && after[i as int] == (dv, m),
{
    lemma_index_of(before, dv);
    match index_of(before, dv) {
        Some(i) => {
            lemma_index_of_from_first(after, dv, i);
        },
        None => {
            lemma_index_of_from_first(after, dv, before.len());
        },
    }
}

/// After `remove_method(dv)`, no method is found for `dv`, when no
/// dispatch value had two entries.
pub proof fn law_remove_then_find<M>(before: Seq<(u64, M)>, after: Seq<(u64, M)>, dv: u64)
    requires
        forall|i: int, j: int| 0 <= i < j < before.len() ==> before[i].0 != before[j].0,
        match index_of(before, dv) {
            Some(i) => after == before.remove(i as int),
            None => after == before,
        },
    ensures
        index_of(after, dv) is None,
{
    lemma_index_of(before, dv);
    lemma_index_of(after, dv);
    match index_of(before, dv) {
        Some(i) => {
            match index_of(after, dv) {
                Some(x) => {
                    if x < i {
                        assert(after[x as int] == before[x as int]);
                    } else {
                        assert(after[x as int] == before[(x + 1) as int]);
                    }
                },
                None => {},
            }
        },
        None => {},
    }
}

} // verus!
