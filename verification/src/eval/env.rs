//! The evaluation environment: local bindings (from `let` and fn
//! parameters) keyed by symbol name, and the current namespace. Extending
//! an environment builds a new one and leaves the old one as it was.

use vstd::prelude::*;
use crate::text::{decimal, push_str, push_u64_decimal, string_eq_str};

verus! {

/// Locals and the current namespace. Each name occurs at most once in
/// `locals` when built by these operations; lookups go by the first entry
/// for a name.
pub struct Env<N, V> {
    pub locals: Vec<(String, V)>,
    pub current_ns: N,
}

/// Index of the first local named `name`.
pub open spec fn local_index<V>(s: Seq<(String, V)>, name: Seq<char>) -> Option<nat>
    decreases s.len(),
{
    if s.len() == 0 {
        None
    } else {
        match local_index(s.drop_last(), name) {
            Some(i) => Some(i),
            None => if s.last().0@ == name {
                Some((s.len() - 1) as nat)
            } else {
                None
            },
        }
    }
}

/// The value bound to `name`, if any.
pub open spec fn binding<V>(s: Seq<(String, V)>, name: Seq<char>) -> Option<V> {
    match local_index(s, name) {
        Some(i) => Some(s[i as int].1),
        None => None,
    }
}

/// `new` binds every name that `old` binds to a clone of `old`'s value,
/// and binds nothing else.
pub open spec fn binds_clones<V: Clone>(old: Seq<(String, V)>, new: Seq<(String, V)>, name: Seq<char>) -> bool {
    match binding(old, name) {
        Some(a) => binding(new, name) matches Some(b) && cloned(a, b),
        None => binding(new, name) is None,
    }
}

pub proof fn lemma_local_index<V>(s: Seq<(String, V)>, name: Seq<char>)
    ensures
        local_index(s, name) matches Some(i) ==> i < s.len() && s[i as int].0@ == name && forall|j: int|
            0 <= j < i ==> s[j].0@ != name,
        local_index(s, name) is None ==> forall|j: int| 0 <= j < s.len() ==> s[j].0@ != name,
    decreases s.len(),
{
    if s.len() > 0 {
        let u = s.drop_last();
        lemma_local_index(u, name);
        assert forall|j: int| 0 <= j < u.len() implies #[trigger] u[j] == s[j] by {}
        match local_index(u, name) {
            Some(i) => {
                assert(u[i as int] == s[i as int]);
                assert forall|j: int| 0 <= j < i implies s[j].0@ != name by {
                    assert(u[j] == s[j]);
                }
            },
            None => {
                assert forall|j: int| 0 <= j < s.len() - 1 implies s[j].0@ != name by {
                    assert(u[j] == s[j]);
                }
            },
        }
    }
}

proof fn lemma_local_index_first<V>(s: Seq<(String, V)>, name: Seq<char>, i: nat)
    requires
        i < s.len(),
        s[i as int].0@ == name,
        forall|j: int| 0 <= j < i ==> s[j].0@ != name,
    ensures
        local_index(s, name) == Some(i),
{
    lemma_local_index(s, name);
    match local_index(s, name) {
        Some(x) => {
            if x < i {
            } else if x > i {
            }
        },
        None => {},
    }
}

/// Sequences with the same names in the same places find every name at
/// the same place.
proof fn lemma_same_names<V>(a: Seq<(String, V)>, b: Seq<(String, V)>, name: Seq<char>)
    requires
        a.len() == b.len(),
        forall|i: int| 0 <= i < a.len() ==> #[trigger] b[i].0@ == a[i].0@,
    ensures
        local_index(a, name) == local_index(b, name),
{
    lemma_local_index(a, name);
    lemma_local_index(b, name);
    match local_index(a, name) {
        Some(i) => {
            assert forall|j: int| 0 <= j < i implies b[j].0@ != name by {
                assert(b[j].0@ == a[j].0@);
            }
            lemma_local_index_first(b, name, i);
        },
        None => {
            match local_index(b, name) {
                Some(i) => {
                    assert(a[i as int].0@ == b[i as int].0@);
                },
                None => {},
            }
        },
    }
}

/// A sequence with the same names as `a` and clones of its values binds
/// every name to a clone of `a`'s value.
proof fn lemma_clones_bind<V: Clone>(a: Seq<(String, V)>, b: Seq<(String, V)>, name: Seq<char>)
    requires
        a.len() == b.len(),
        forall|i: int|
            #![trigger b[i]]
            0 <= i < a.len() ==> b[i].0@ == a[i].0@ && cloned(a[i].1, b[i].1),
    ensures
        binds_clones(a, b, name),
{
    assert forall|i: int| 0 <= i < a.len() implies #[trigger] b[i].0@ == a[i].0@ by {
        assert(b[i].0@ == a[i].0@);
    }
    lemma_same_names(a, b, name);
    lemma_local_index(a, name);
    match local_index(a, name) {
        Some(i) => {
            assert(cloned(a[i as int].1, b[i as int].1));
        },
        None => {},
    }
}

/// The first index of `name` in `s`.
fn find_local<V>(s: &Vec<(String, V)>, name: &str) -> (r: Option<usize>)
    ensures
        match r {
            Some(i) => i < s@.len() && local_index(s@, name@) == Some(i as nat),
            None => local_index(s@, name@) is None,
        },
{
    proof {
        lemma_local_index(s@, name@);
    }
    let mut i: usize = 0;
    while i < s.len()
        invariant
            i <= s@.len(),
            forall|j: int| 0 <= j < i ==> s@[j].0@ != name@,
        decreases s@.len() - i,
    {
        if string_eq_str(&s[i].0, name) {
            proof {
                lemma_local_index_first(s@, name@, i as nat);
            }
            return Some(i);
        }
        i = i + 1;
    }
    None
}

/// A copy of `s` with every value cloned.
fn clone_locals<V: Clone>(s: &Vec<(String, V)>) -> (r: Vec<(String, V)>)
    ensures
        r@.len() == s@.len(),
        forall|i: int|
            #![trigger r@[i]]
            0 <= i < s@.len() ==> r@[i].0@ == s@[i].0@ && cloned(s@[i].1, r@[i].1),
{
    let mut r: Vec<(String, V)> = Vec::new();
    let mut i: usize = 0;
    while i < s.len()
        invariant
            i <= s@.len(),
            r@.len() == i,
            forall|j: int|
                #![trigger r@[j]]
                0 <= j < i ==> r@[j].0@ == s@[j].0@ && cloned(s@[j].1, r@[j].1),
        decreases s@.len() - i,
    {
        let (k, v) = &s[i];
        r.push((k.clone(), v.clone()));
        i = i + 1;
    }
    r
}

/// Binds `name` to `val` in `s`, in place: the entry for `name` takes the
/// value, or a new entry is added at the end.
fn bind_local<V>(s: &mut Vec<(String, V)>, name: &str, val: V)
    ensures
        binding(final(s)@, name@) == Some(val),
        forall|k: Seq<char>| k != name@ ==> #[trigger] binding(final(s)@, k) == binding(old(s)@, k),
{
    let ghost before = s@;
    match find_local(s, name) {
        Some(i) => {
            let key = s[i].0.clone();
            s.set(i, (key, val));
            proof {
                assert forall|j: int| 0 <= j < before.len() implies #[trigger] s@[j].0@ == before[j].0@ by {}
                lemma_local_index(before, name@);
                assert forall|k: Seq<char>| k != name@ implies #[trigger] binding(s@, k) == binding(before, k) by {
                    lemma_same_names(before, s@, k);
                    lemma_local_index(before, k);
                    match local_index(before, k) {
                        Some(j) => {
                            assert(j != i);
                            assert(s@[j as int] == before[j as int]);
                        },
                        None => {},
                    }
                }
                lemma_same_names(before, s@, name@);
            }
        },
        None => {
            s.push((name.to_string(), val));
            proof {
                lemma_local_index(before, name@);
                assert(s@.drop_last() =~= before);
                assert forall|k: Seq<char>| k != name@ implies #[trigger] binding(s@, k) == binding(before, k) by {
                    lemma_local_index(before, k);
                    match local_index(before, k) {
                        Some(i) => {
                            assert(s@[i as int] == before[i as int]);
                        },
                        None => {},
                    }
                }
            }
        },
    }
}

impl<N: Clone, V: Clone> Env<N, V> {
    /// An environment with no locals.
    pub fn new(current_ns: N) -> (e: Self)
        ensures
            e.locals@.len() == 0,
            e.current_ns == current_ns,
    {
        Env { locals: Vec::new(), current_ns }
    }

    /// A copy: the same names bound to clones of the same values, and a
    /// clone of the namespace.
    pub fn clone_with(&self) -> (e: Self)
        ensures
            forall|k: Seq<char>| #[trigger] binds_clones(self.locals@, e.locals@, k),
            cloned(self.current_ns, e.current_ns),
    {
        let locals = clone_locals(&self.locals);
        proof {
            assert forall|k: Seq<char>| #[trigger] binds_clones(self.locals@, locals@, k) by {
                lemma_clones_bind(self.locals@, locals@, k);
            }
        }
        Env { locals, current_ns: self.current_ns.clone() }
    }

    /// A new environment with one more binding: `name` is bound to `val`
    /// (replacing a local of that name), every other local to a clone of
    /// its value here.
    pub fn extend(&self, name: &str, val: V) -> (e: Self)
        ensures
            binding(e.locals@, name@) == Some(val),
            forall|k: Seq<char>| k != name@ ==> #[trigger] binds_clones(self.locals@, e.locals@, k),
            cloned(self.current_ns, e.current_ns),
    {
        let mut locals = clone_locals(&self.locals);
        proof {
            assert forall|k: Seq<char>| #[trigger] binds_clones(self.locals@, locals@, k) by {
                lemma_clones_bind(self.locals@, locals@, k);
            }
        }
        let ghost copied = locals@;
        bind_local(&mut locals, name, val);
        proof {
            assert forall|k: Seq<char>| k != name@ implies #[trigger] binds_clones(self.locals@, locals@, k) by {
                assert(binds_clones(self.locals@, copied, k));
            }
        }
        Env { locals, current_ns: self.current_ns.clone() }
    }

    /// A new environment with several more bindings, applied in order (a
    /// later binding of a name wins): each name of `bindings` is bound to a
    /// clone of its last value there, every other local to a clone of its
    /// value here.
    pub fn extend_many(&self, bindings: &[(String, V)]) -> (e: Self)
        ensures
            forall|k: Seq<char>| #[trigger] extended(self.locals@, bindings@, e.locals@, k),
            cloned(self.current_ns, e.current_ns),
    {
        let mut locals = clone_locals(&self.locals);
        proof {
            assert forall|k: Seq<char>| #[trigger] extended(self.locals@, bindings@.take(0), locals@, k) by {
                lemma_clones_bind(self.locals@, locals@, k);
                lemma_last_binding(bindings@.take(0), k);
            }
        }
        let mut i: usize = 0;
        while i < bindings.len()
            invariant
                i <= bindings@.len(),
                forall|k: Seq<char>| #[trigger] extended(self.locals@, bindings@.take(i as int), locals@, k),
            decreases bindings@.len() - i,
        {
            let (name, v) = &bindings[i];
            let ghost before = locals@;
            let val = v.clone();
            bind_local(&mut locals, name.as_str(), val);
            proof {
                let t1 = bindings@.take(i as int);
                let t2 = bindings@.take(i + 1);
                assert(t2.drop_last() =~= t1);
                assert(t2.last() == bindings@[i as int]);
                assert forall|k: Seq<char>| #[trigger] extended(self.locals@, t2, locals@, k) by {
                    assert(extended(self.locals@, t1, before, k));
                    lemma_last_binding(t1, k);
                    lemma_last_binding(t2, k);
                }
            }
            i = i + 1;
        }
        proof {
            assert(bindings@.take(i as int) =~= bindings@);
        }
        Env { locals, current_ns: self.current_ns.clone() }
    }

    /// A clone of the value bound to `name`, if any.
    pub fn lookup_local(&self, name: &str) -> (r: Option<V>)
        ensures
            match binding(self.locals@, name@) {
                Some(a) => r matches Some(b) && cloned(a, b),
                None => r is None,
            },
    {
        proof {
            lemma_local_index(self.locals@, name@);
        }
        match find_local(&self.locals, name) {
            Some(i) => Some(self.locals[i].1.clone()),
            None => None,
        }
    }
}

/// Index of the last pair of `b` named `name`.
pub open spec fn last_binding<V>(b: Seq<(String, V)>, name: Seq<char>) -> Option<nat>
    decreases b.len(),
{
    if b.len() == 0 {
        None
    } else if b.last().0@ == name {
        Some((b.len() - 1) as nat)
    } else {
        last_binding(b.drop_last(), name)
    }
}

proof fn lemma_last_binding<V>(b: Seq<(String, V)>, name: Seq<char>)
    ensures
        last_binding(b, name) matches Some(i) ==> i < b.len() && b[i as int].0@ == name,
    decreases b.len(),
{
    if b.len() > 0 {
        lemma_last_binding(b.drop_last(), name);
    }
}

/// `e` binds `name` as extending `s` by `b` does: to a clone of the last
/// value `b` gives it, else to a clone of `s`'s value, else not at all.
pub open spec fn extended<V: Clone>(s: Seq<(String, V)>, b: Seq<(String, V)>, e: Seq<(String, V)>, name: Seq<char>) -> bool {
    match last_binding(b, name) {
        Some(q) => binding(e, name) matches Some(x) && cloned(b[q as int].1, x),
        None => binds_clones(s, e, name),
    }
}

/// Index of the last of `params` named `name`.
pub open spec fn last_param(params: Seq<String>, name: Seq<char>) -> Option<nat>
    decreases params.len(),
{
    if params.len() == 0 {
        None
    } else if params.last()@ == name {
        Some((params.len() - 1) as nat)
    } else {
        last_param(params.drop_last(), name)
    }
}

proof fn lemma_last_param(params: Seq<String>, name: Seq<char>)
    ensures
        last_param(params, name) matches Some(i) ==> i < params.len() && params[i as int]@ == name,
    decreases params.len(),
{
    if params.len() > 0 {
        lemma_last_param(params.drop_last(), name);
    }
}

/// `e` binds `name` as a call does that binds `params` to `args` over the
/// captured locals `s`: to a clone of the argument of the last parameter
/// of that name, else to a clone of the captured value, else not at all.
pub open spec fn called<V: Clone>(
    s: Seq<(String, V)>,
    params: Seq<String>,
    args: Seq<V>,
    e: Seq<(String, V)>,
    name: Seq<char>,
) -> bool {
    match last_param(params, name) {
        Some(q) => binding(e, name) matches Some(x) && cloned(args[q as int], x),
        None => binds_clones(s, e, name),
    }
}

/// Why a call's environment cannot be built.
#[derive(Debug, PartialEq, Eq, Structural)]
pub enum CallError {
    /// The number of arguments given and the number of parameters.
    Arity(usize, usize),
}

/// The message for a call with `given` arguments of a fn named `name`
/// (`<anonymous>` without one) that takes `expected`.
pub open spec fn arity_message(given: nat, name: Option<Seq<char>>, expected: nat) -> Seq<char> {
    "Wrong number of args ("@ + decimal(given) + ") passed to fn "@ + match name {
        Some(n) => n,
        None => "<anonymous>"@,
    } + " (expected "@ + decimal(expected) + ")"@
}

/// The message of a failed call to the fn named `name`.
pub fn arity_error_message(given: usize, name: Option<&str>, expected: usize) -> (r: String)
    ensures
        r@ == arity_message(given as nat, match name {
            Some(n) => Some(n@),
            None => None,
        }, expected as nat),
{
    let mut s = String::new();
    push_str(&mut s, "Wrong number of args (");
    push_u64_decimal(&mut s, given as u64);
    push_str(&mut s, ") passed to fn ");
    match name {
        Some(n) => push_str(&mut s, n),
        None => push_str(&mut s, "<anonymous>"),
    }
    push_str(&mut s, " (expected ");
    push_u64_decimal(&mut s, expected as u64);
    push_str(&mut s, ")");
    s
}

impl<N: Clone, V: Clone> Env<N, V> {
    /// The environment a fn call runs in: the locals the fn captured with
    /// each parameter bound to its argument (a later parameter of the same
    /// name wins), in the fn's namespace. An arity error when the number
    /// of arguments is not the number of parameters.
    pub fn call_env(captured: &Self, params: &Vec<String>, args: &[V]) -> (r: Result<Self, CallError>)
        ensures
            args@.len() != params@.len() ==> r == Err::<Self, CallError>(
                CallError::Arity(args@.len() as usize, params@.len() as usize),
            ),
            args@.len() == params@.len() ==> (r matches Ok(e) && cloned(captured.current_ns, e.current_ns)
                && forall|k: Seq<char>| #[trigger] called(captured.locals@, params@, args@, e.locals@, k)),
    {
        if args.len() != params.len() {
            return Err(CallError::Arity(args.len(), params.len()));
        }
        let mut locals = clone_locals(&captured.locals);
        proof {
            assert forall|k: Seq<char>| #[trigger] called(captured.locals@, params@.take(0), args@, locals@, k) by {
                lemma_clones_bind(captured.locals@, locals@, k);
                lemma_last_param(params@.take(0), k);
            }
        }
        let mut i: usize = 0;
        while i < params.len()
            invariant
                i <= params@.len(),
                args@.len() == params@.len(),
                forall|k: Seq<char>| #[trigger] called(captured.locals@, params@.take(i as int), args@, locals@, k),
            decreases params@.len() - i,
        {
            let ghost before = locals@;
            let val = args[i].clone();
            bind_local(&mut locals, params[i].as_str(), val);
            proof {
                let t1 = params@.take(i as int);
                let t2 = params@.take(i + 1);
                assert(t2.drop_last() =~= t1);
                assert(t2.last() == params@[i as int]);
                assert forall|k: Seq<char>| #[trigger] called(captured.locals@, t2, args@, locals@, k) by {
                    assert(called(captured.locals@, t1, args@, before, k));
                    lemma_last_param(t1, k);
                    lemma_last_param(t2, k);
                }
            }
            i = i + 1;
        }
        proof {
            assert(params@.take(i as int) =~= params@);
        }
        Ok(Env { locals, current_ns: captured.current_ns.clone() })
    }
}

/// Why a symbol cannot be resolved.
#[derive(Debug, PartialEq, Eq, Structural)]
pub enum ResolveError {
    /// A namespaced symbol: only locals are resolved here.
    Namespaced,
    /// No local of that name.
    Unbound,
}

impl<N: Clone, V: Clone> Env<N, V> {
    /// Resolves a symbol (`ns`/`name`) among the locals: a namespaced
    /// symbol is refused, a bound name gives (a clone of) its value.
    pub fn resolve_symbol(&self, ns: Option<&str>, name: &str) -> (r: Result<V, ResolveError>)
        ensures
            ns is Some ==> r == Err::<V, ResolveError>(ResolveError::Namespaced),
            ns is None ==> match binding(self.locals@, name@) {
                Some(a) => r matches Ok(b) && cloned(a, b),
                None => r == Err::<V, ResolveError>(ResolveError::Unbound),
            },
    {
        if ns.is_some() {
            return Err(ResolveError::Namespaced);
        }
        match self.lookup_local(name) {
            Some(v) => Ok(v),
            None => Err(ResolveError::Unbound),
        }
    }
}

/// The message for a symbol that cannot be resolved.
pub fn resolve_error_message(err: &ResolveError, ns: &str, name: &str) -> (r: String)
    ensures
        r@ == match *err {
            ResolveError::Namespaced => "Unable to resolve namespaced symbol: "@ + ns@ + "/"@ + name@
                + " (ns resolution pending Phase E3)"@,
            ResolveError::Unbound => "Unable to resolve symbol: "@ + name@ + " in this context"@,
        },
{
    let mut s = String::new();
    match err {
        ResolveError::Namespaced => {
            push_str(&mut s, "Unable to resolve namespaced symbol: ");
            push_str(&mut s, ns);
            push_str(&mut s, "/");
            push_str(&mut s, name);
            push_str(&mut s, " (ns resolution pending Phase E3)");
        },
        ResolveError::Unbound => {
            push_str(&mut s, "Unable to resolve symbol: ");
            push_str(&mut s, name);
            push_str(&mut s, " in this context");
        },
    }
    s
}

/// The printed form of a fn: `#<Fn name>`, `#<Fn anonymous>` without one.
pub fn fn_repr(name: Option<&str>) -> (r: String)
    ensures
        r@ == "#<Fn "@ + match name {
            Some(n) => n@,
            None => "anonymous"@,
        } + ">"@,
{
    let mut s = String::new();
    push_str(&mut s, "#<Fn ");
    match name {
        Some(n) => push_str(&mut s, n),
        None => push_str(&mut s, "anonymous"),
    }
    push_str(&mut s, ">");
    s
}

} // verus!
