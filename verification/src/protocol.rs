//! The per-type dispatch cache behind protocols and protocol functions:
//! implementations stored by type key, an epoch bumped by every
//! extension, and resolution by exact type, then by the first supertype
//! (in method-resolution order) with an implementation, whose entry is
//! copied to the exact type as a "promoted" entry until the epoch moves.

use vstd::prelude::*;

verus! {

/// A type's key in the cache (the type's identity).
#[derive(PartialEq, Eq, Structural, Clone, Copy, Debug)]
pub struct CacheKey(pub usize);

/// Where a protocol implementation came from.
#[derive(PartialEq, Eq, Structural, Clone, Copy, Debug)]
pub enum Origin {
    InlineAttr,
    Extend,
    Metadata,
    Fallback,
}

/// A type's implementations, where they came from, the epoch they were
/// stored at, and whether they were copied from a supertype's entry
/// (promoted) rather than stored directly.
pub struct MethodTable<F> {
    pub impls: F,
    pub origin: Origin,
    pub epoch: u64,
    pub promoted: bool,
}

/// Implementations by type key, with the cache's epoch.
pub struct MethodCache<F> {
    pub entries: Vec<(CacheKey, MethodTable<F>)>,
    pub epoch: u64,
}

/// Index of the first entry for key `k`.
pub open spec fn key_index<F>(s: Seq<(CacheKey, MethodTable<F>)>, k: CacheKey) -> Option<nat>
    decreases s.len(),
{
    if s.len() == 0 {
        None
    } else if s.last().0 == k && key_index(s.drop_last(), k) is None {
        Some((s.len() - 1) as nat)
    } else {
        key_index(s.drop_last(), k)
    }
}

/// An entry can be used as it is: stored directly, or promoted at the
/// current epoch.
pub open spec fn fresh<F>(c: MethodTable<F>, epoch: u64) -> bool {
    !c.promoted || c.epoch == epoch
}

/// Index of the first supertype key (from `j` on) that has an entry.
pub open spec fn first_cached_parent<F>(s: Seq<(CacheKey, MethodTable<F>)>, parents: Seq<CacheKey>, j: nat) -> Option<nat>
    decreases parents.len() - j,
{
    if j >= parents.len() {
        None
    } else if key_index(s, parents[j as int]) is Some {
        Some(j)
    } else {
        first_cached_parent(s, parents, j + 1)
    }
}

/// `new` is `old` with `entry` stored under key `k`: in place of `k`'s
/// entry, or added at the end.
pub open spec fn stored<F>(
    old: Seq<(CacheKey, MethodTable<F>)>,
    k: CacheKey,
    entry: MethodTable<F>,
    new: Seq<(CacheKey, MethodTable<F>)>,
) -> bool {
    match key_index(old, k) {
        Some(i) => new == old.update(i as int, (k, entry)),
        None => new == old.push((k, entry)),
    }
}

pub proof fn lemma_key_index<F>(s: Seq<(CacheKey, MethodTable<F>)>, k: CacheKey)
    ensures
        key_index(s, k) matches Some(i) ==> i < s.len() && s[i as int].0 == k && forall|j: int|
            0 <= j < i ==> s[j].0 != k,
        key_index(s, k) is None ==> forall|j: int| 0 <= j < s.len() ==> s[j].0 != k,
    decreases s.len(),
{
    if s.len() > 0 {
        let u = s.drop_last();
        lemma_key_index(u, k);
        assert forall|j: int| 0 <= j < u.len() implies #[trigger] u[j] == s[j] by {}
        assert(s.last() == s[s.len() - 1]);
        if s.last().0 == k && key_index(u, k) is None {
            assert forall|j: int| 0 <= j < s.len() - 1 implies s[j].0 != k by {
                assert(u[j] == s[j]);
            }
        } else {
            match key_index(u, k) {
                Some(i) => {
                    assert(u[i as int] == s[i as int]);
                    assert forall|j: int| 0 <= j < i implies s[j].0 != k by {
                        assert(u[j] == s[j]);
                    }
                },
                None => {
                    assert forall|j: int| 0 <= j < s.len() implies s[j].0 != k by {
                        if j < u.len() {
                            assert(u[j] == s[j]);
                        }
                    }
                },
            }
        }
    }
}

proof fn lemma_key_index_first<F>(s: Seq<(CacheKey, MethodTable<F>)>, k: CacheKey, i: nat)
    requires
        i < s.len(),
        s[i as int].0 == k,
        forall|j: int| 0 <= j < i ==> s[j].0 != k,
    ensures
        key_index(s, k) == Some(i),
{
    lemma_key_index(s, k);
    match key_index(s, k) {
        Some(x) => {
            if x < i {
            } else if x > i {
            }
        },
        None => {},
    }
}

/// After storing under `k`, `k`'s entry is the one stored.
pub proof fn lemma_stored_index<F>(
    old: Seq<(CacheKey, MethodTable<F>)>,
    k: CacheKey,
    entry: MethodTable<F>,
    new: Seq<(CacheKey, MethodTable<F>)>,
)
    requires
        stored(old, k, entry, new),
    ensures
        key_index(new, k) matches Some(i) && new[i as int] == (k, entry),
{
    lemma_key_index(old, k);
    match key_index(old, k) {
        Some(i) => {
            lemma_key_index_first(new, k, i);
        },
        None => {
            lemma_key_index_first(new, k, old.len());
        },
    }
}

fn find_key<F>(s: &Vec<(CacheKey, MethodTable<F>)>, k: CacheKey) -> (r: Option<usize>)
    ensures
        match r {
            Some(i) => key_index(s@, k) == Some(i as nat),
            None => key_index(s@, k) is None,
        },
{
    proof {
        lemma_key_index(s@, k);
    }
    let mut i: usize = 0;
    while i < s.len()
        invariant
            i <= s@.len(),
            forall|j: int| 0 <= j < i ==> s@[j].0 != k,
        decreases s@.len() - i,
    {
        if s[i].0 == k {
            proof {
                lemma_key_index_first(s@, k, i as nat);
            }
            return Some(i);
        }
        i = i + 1;
    }
    None
}

impl<F: Clone> MethodCache<F> {
    /// An empty cache at epoch 0.
    pub fn new() -> (c: MethodCache<F>)
        ensures
            c.entries@.len() == 0,
            c.epoch == 0,
    {
        MethodCache { entries: Vec::new(), epoch: 0 }
    }

    /// Advance the epoch (wrapping), making every promoted entry stale.
    pub fn bump_epoch(&mut self)
        ensures
            final(self).entries@ == old(self).entries@,
            final(self).epoch == (if old(self).epoch == u64::MAX {
                0
            } else {
                (old(self).epoch + 1) as u64
            }),
    {
        self.epoch = if self.epoch == u64::MAX {
            0
        } else {
            self.epoch + 1
        };
    }

    /// The entry stored for `k`, if any.
    pub fn lookup(&self, k: CacheKey) -> (r: Option<&MethodTable<F>>)
        ensures
            match key_index(self.entries@, k) {
                Some(i) => r matches Some(c) && *c == self.entries@[i as int].1,
                None => r is None,
            },
    {
        proof {
            lemma_key_index(self.entries@, k);
        }
        match find_key(&self.entries, k) {
            Some(i) => {
                let e = &self.entries[i];
                Some(&e.1)
            },
            None => None,
        }
    }

    fn store(&mut self, k: CacheKey, entry: MethodTable<F>)
        ensures
            final(self).epoch == old(self).epoch,
            stored(old(self).entries@, k, entry, final(self).entries@),
    {
        proof {
            lemma_key_index(self.entries@, k);
        }
        match find_key(&self.entries, k) {
            Some(i) => {
                self.entries.set(i, (k, entry));
            },
            None => {
                self.entries.push((k, entry));
            },
        }
    }

    /// Store `impls` directly for `k` (as an extension) at the next epoch
    /// (replacing what `k` had); every promoted entry becomes stale.
    pub fn extend_type(&mut self, k: CacheKey, impls: F)
        requires
            old(self).epoch < u64::MAX,
        ensures
            final(self).epoch == old(self).epoch + 1,
            stored(
                old(self).entries@,
                k,
                MethodTable { impls, origin: Origin::Extend, epoch: final(self).epoch, promoted: false },
                final(self).entries@,
            ),
    {
        self.epoch = self.epoch + 1;
        let e = self.epoch;
        self.store(k, MethodTable { impls, origin: Origin::Extend, epoch: e, promoted: false });
    }

    /// Resolve type `exact`, whose supertypes in method-resolution order
    /// are `parents`: its own entry when fresh; else the first supertype
    /// with an entry, whose implementation is copied to `exact` as a
    /// promoted entry at the current epoch; else nothing. Returns the
    /// index of `exact`'s entry.
    pub fn resolve(&mut self, exact: CacheKey, parents: &Vec<CacheKey>) -> (r: Option<usize>)
        ensures
            final(self).epoch == old(self).epoch,
            match key_index(old(self).entries@, exact) {
                Some(i) if fresh(old(self).entries@[i as int].1, old(self).epoch) => r == Some(
                    i as usize,
                ) && final(self).entries@ == old(self).entries@,
                _ => match first_cached_parent(old(self).entries@, parents@, 0) {
                    Some(j) => {
                        let pi = key_index(old(self).entries@, parents@[j as int])->0;
                        r matches Some(x) && x < final(self).entries@.len() && key_index(
                            final(self).entries@,
                            exact,
                        ) == Some(x as nat) && final(self).entries@[x as int].1.epoch == old(self).epoch
                            && final(self).entries@[x as int].1.promoted && final(self).entries@[x as int].1.origin
                            == old(self).entries@[pi as int].1.origin && cloned(
                            old(self).entries@[pi as int].1.impls,
                            final(self).entries@[x as int].1.impls,
                        ) && stored(
                            old(self).entries@,
                            exact,
                            final(self).entries@[x as int].1,
                            final(self).entries@,
                        )
                    },
                    None => r is None && final(self).entries@ == old(self).entries@,
                },
            },
    {
        proof {
            lemma_key_index(self.entries@, exact);
        }
        match find_key(&self.entries, exact) {
            Some(i) => {
                let e = &self.entries[i];
                if !e.1.promoted || e.1.epoch == self.epoch {
                    return Some(i);
                }
            },
            None => {},
        }
        let mut j: usize = 0;
        while j < parents.len()
            invariant
                j <= parents@.len(),
                self.entries@ == old(self).entries@,
                self.epoch == old(self).epoch,
                !(key_index(old(self).entries@, exact) matches Some(i) && fresh(
                    old(self).entries@[i as int].1,
                    old(self).epoch,
                )),
                first_cached_parent(self.entries@, parents@, 0) == first_cached_parent(
                    self.entries@,
                    parents@,
                    j as nat,
                ),
            decreases parents@.len() - j,
        {
            match find_key(&self.entries, parents[j]) {
                Some(pi) => {
                    proof {
                        lemma_key_index(self.entries@, parents@[j as int]);
                    }
                    let impls = self.entries[pi].1.impls.clone();
                    let origin = self.entries[pi].1.origin;
                    let entry = MethodTable { impls, origin, epoch: self.epoch, promoted: true };
                    let ghost before = self.entries@;
                    self.store(exact, entry);
                    proof {
                        lemma_stored_index(before, exact, entry, self.entries@);
                        lemma_key_index(self.entries@, exact);
                        assert(first_cached_parent(before, parents@, j as nat) == Some(j as nat));
                    }
                    let r = find_key(&self.entries, exact);
                    proof {
                        let x = r->0;
                        assert(self.entries@[x as int].1 == entry);
                    }
                    return r;
                },
                None => {},
            }
            j = j + 1;
        }
        None
    }
}

/// An implementation stored directly is what resolving its type gives,
/// whatever the supertypes: after `extend_type(k, f)`, `resolve(k, ..)`
/// returns `k`'s entry holding `f`.
pub proof fn law_extend_then_resolve<F>(
    old: Seq<(CacheKey, MethodTable<F>)>,
    new: Seq<(CacheKey, MethodTable<F>)>,
    k: CacheKey,
    f: F,
    epoch: u64,
)
    requires
        stored(old, k, MethodTable { impls: f, origin: Origin::Extend, epoch, promoted: false }, new),
    ensures
        key_index(new, k) matches Some(i) && new[i as int].1.impls == f && fresh(new[i as int].1, epoch),
{
    lemma_stored_index(old, k, MethodTable { impls: f, origin: Origin::Extend, epoch, promoted: false }, new);
}

/// A promoted entry stops being used once the epoch moves: after the
/// epoch changes, a promoted entry stored at the old epoch is stale.
pub proof fn law_promoted_stale_after_bump<F>(c: MethodTable<F>, epoch: u64, next: u64)
    requires
        c.promoted,
        c.epoch == epoch,
        next != epoch,
    ensures
        !fresh(c, next),
{
}


/// The most arguments after the target that a protocol function has a
/// fixed-arity implementation slot for.
pub const MAX_FIXED_ARITY: usize = 20;

/// What a protocol function call with `n` arguments after the target does.
#[derive(PartialEq, Eq, Structural, Clone, Copy, Debug)]
pub enum DispatchChoice {
    /// Call the fixed-arity implementation for `n` arguments.
    Fixed(usize),
    /// Call the variadic implementation with all the arguments.
    Variadic,
    /// Fail: "no impl for arity n".
    NoArity,
    /// No implementation is cached for the type: ask the protocol of the
    /// same name that is extended from the host.
    Legacy,
    /// Fail: "No implementation of method".
    NoImpl,
}

/// The decision [`dispatch_choice`] makes.
pub open spec fn dispatch_spec(cached: Option<(Seq<bool>, bool)>, legacy: bool, n: nat) -> DispatchChoice {
    match cached {
        Some((fixed, variadic)) => if n <= MAX_FIXED_ARITY && n < fixed.len() && fixed[n as int] {
            DispatchChoice::Fixed(n as usize)
        } else if variadic {
            DispatchChoice::Variadic
        } else {
            DispatchChoice::NoArity
        },
        None => if legacy {
            DispatchChoice::Legacy
        } else {
            DispatchChoice::NoImpl
        },
    }
}

/// The views of the arguments of [`dispatch_choice`].
pub open spec fn cached_view(cached: Option<(&Vec<bool>, bool)>) -> Option<(Seq<bool>, bool)> {
    match cached {
        Some((f, v)) => Some((f@, v)),
        None => None,
    }
}

/// How a protocol function call with `n` arguments after the target is
/// carried out. `cached` is what the cache resolved for the target's type,
/// if anything: which fixed arities have an implementation (index `k` for
/// `k` arguments) and whether a variadic one exists; `legacy` is whether a
/// host-extended protocol of the same name is registered. A fixed-arity
/// implementation is used up to [`MAX_FIXED_ARITY`] arguments, then the
/// variadic one.
pub fn dispatch_choice(cached: Option<(&Vec<bool>, bool)>, legacy: bool, n: usize) -> (r: DispatchChoice)
    ensures
        r == dispatch_spec(cached_view(cached), legacy, n as nat),
{
    match cached {
        Some((fixed, variadic)) => {
            if n <= MAX_FIXED_ARITY && n < fixed.len() && fixed[n] {
                DispatchChoice::Fixed(n)
            } else if variadic {
                DispatchChoice::Variadic
            } else {
                DispatchChoice::NoArity
            }
        },
        None => {
            if legacy {
                DispatchChoice::Legacy
            } else {
                DispatchChoice::NoImpl
            }
        },
    }
}

} // verus!
