//! Creating a namespace in a module table: the decisions `create-ns`
//! makes about the dotted name's prefixes, given which modules exist.

use vstd::prelude::*;
use crate::text::{chars_to_string, string_eq_str, string_to_chars, sub_chars};

verus! {

/// What a module-table entry is: a Clojure namespace, or any other module
/// (such as a placeholder made for a dotted prefix).
#[derive(PartialEq, Eq, Structural, Clone, Copy, Debug)]
pub enum ModuleKind {
    Namespace,
    Other,
}

/// What to do for one prefix of a dotted namespace name.
#[derive(PartialEq, Eq, Structural, Clone, Copy, Debug)]
pub enum StepAction {
    /// Use the module already registered under the prefix.
    UseExisting,
    /// Register a bare placeholder module under the prefix.
    CreatePlaceholder,
    /// Register the new namespace (the whole name).
    CreateNamespace,
}

/// One prefix of the dotted name: its full name, the last segment (the
/// attribute under which it hangs off the previous prefix), and the action.
#[derive(Debug)]
pub struct NsStep {
    pub name: String,
    pub part: String,
    pub action: StepAction,
}

/// The decision `create-ns` makes for a name.
#[derive(Debug)]
pub enum CreateNs {
    /// A namespace of that name exists: it is returned as it is.
    AlreadyExists,
    /// Build the chain of prefixes; when `replace` is set, the module
    /// registered under the whole name is not a namespace and is replaced
    /// (its non-dunder attributes carried over to the new namespace).
    Build { replace: bool, steps: Vec<NsStep> },
}

/// The view of one step.
pub ghost struct NsStepV {
    pub name: Seq<char>,
    pub part: Seq<char>,
    pub action: StepAction,
}

/// The kind of module registered under `name`, if any (the first entry
/// with that name).
pub open spec fn module_kind(table: Seq<(Seq<char>, ModuleKind)>, name: Seq<char>) -> Option<ModuleKind>
    decreases table.len(),
{
    if table.len() == 0 {
        None
    } else if table[0].0 == name {
        Some(table[0].1)
    } else {
        module_kind(table.drop_first(), name)
    }
}

/// The view of a module table.
pub open spec fn table_view(t: Seq<(String, ModuleKind)>) -> Seq<(Seq<char>, ModuleKind)> {
    Seq::new(t.len(), |i: int| (t[i].0@, t[i].1))
}

/// Index of the first `.` in `s` at or after `i`, if any.
pub open spec fn next_dot(s: Seq<char>, i: nat) -> Option<nat>
    decreases s.len() - i,
{
    if i >= s.len() {
        None
    } else if s[i as int] == '.' {
        Some(i)
    } else {
        next_dot(s, i + 1)
    }
}

/// The steps for the prefixes of `s` from the segment starting at index
/// `start` on: each `.` ends a prefix, used when registered and made a
/// placeholder otherwise; the whole name is the new namespace.
pub open spec fn steps_from(s: Seq<char>, start: nat, table: Seq<(Seq<char>, ModuleKind)>) -> Seq<NsStepV>
    decreases s.len() - start,
{
    match next_dot(s, start) {
        Some(j) => if j < s.len() && j >= start {
            seq![
                NsStepV {
                    name: s.take(j as int),
                    part: s.subrange(start as int, j as int),
                    action: if module_kind(table, s.take(j as int)) is Some {
                        StepAction::UseExisting
                    } else {
                        StepAction::CreatePlaceholder
                    },
                },
            ] + steps_from(s, j + 1, table)
        } else {
            Seq::empty()
        },
        None => seq![
            NsStepV { name: s, part: s.skip(start as int), action: StepAction::CreateNamespace },
        ],
    }
}

/// The view of a list of steps.
pub open spec fn steps_view(v: Seq<NsStep>) -> Seq<NsStepV> {
    Seq::new(v.len(), |i: int| NsStepV { name: v[i].name@, part: v[i].part@, action: v[i].action })
}

pub proof fn lemma_next_dot(s: Seq<char>, i: nat)
    ensures
        next_dot(s, i) matches Some(j) ==> i <= j < s.len() && s[j as int] == '.' && forall|k: int|
            i <= k < j ==> s[k] != '.',
        next_dot(s, i) is None ==> forall|k: int| i <= k < s.len() ==> s[k] != '.',
    decreases s.len() - i,
{
    if i < s.len() && s[i as int] != '.' {
        lemma_next_dot(s, i + 1);
    }
}

/// The kind of module `name` is registered as in `table`.
fn lookup_kind(table: &Vec<(String, ModuleKind)>, name: &Vec<char>) -> (r: Option<ModuleKind>)
    ensures
        r == module_kind(table_view(table@), name@),
{
    let ghost t = table_view(table@);
    let mut i: usize = 0;
    assert(t.skip(0) =~= t);
    while i < table.len()
        invariant
            i <= table@.len(),
            t == table_view(table@),
            module_kind(t, name@) == module_kind(t.skip(i as int), name@),
        decreases table@.len() - i,
    {
        let ghost u = t.skip(i as int);
        assert(u[0] == (table@[i as int].0@, table@[i as int].1));
        if string_eq_str(&table[i].0, chars_to_string(name).as_str()) {
            return Some(table[i].1);
        }
        assert(u.drop_first() =~= t.skip(i + 1));
        i = i + 1;
    }
    None
}

/// The full name of a namespace symbol: `ns.name`, or `name`.
pub open spec fn full_dotted_name(ns: Option<Seq<char>>, name: Seq<char>) -> Seq<char> {
    match ns {
        Some(n) => n + seq!['.'] + name,
        None => name,
    }
}

/// [`full_dotted_name`] of a symbol's namespace and name.
pub fn dotted_name(ns: Option<&str>, name: &str) -> (r: String)
    ensures
        r@ == full_dotted_name(
            match ns {
                Some(n) => Some(n@),
                None => None,
            },
            name@,
        ),
{
    let mut v: Vec<char> = Vec::new();
    match ns {
        Some(n) => {
            v = string_to_chars(n);
            v.push('.');
        },
        None => {},
    }
    let tail = string_to_chars(name);
    let ghost before = v@;
    let mut i: usize = 0;
    while i < tail.len()
        invariant
            i <= tail@.len(),
            v@ == before + tail@.take(i as int),
        decreases tail@.len() - i,
    {
        v.push(tail[i]);
        assert(tail@.take(i + 1) =~= tail@.take(i as int).push(tail@[i as int]));
        i = i + 1;
    }
    assert(tail@.take(i as int) =~= tail@);
    chars_to_string(&v)
}

/// The decision `create-ns` makes for the dotted name `name`, given the
/// registered modules `table`.
pub open spec fn create_ns_spec(name: Seq<char>, table: Seq<(Seq<char>, ModuleKind)>) -> (bool, bool, Seq<NsStepV>) {
    match module_kind(table, name) {
        Some(ModuleKind::Namespace) => (true, false, Seq::empty()),
        Some(ModuleKind::Other) => (false, true, steps_from(name, 0, table)),
        None => (false, false, steps_from(name, 0, table)),
    }
}

/// [`create_ns_spec`]: what to do to create namespace `name`.
pub fn create_ns_plan(name: &str, table: &Vec<(String, ModuleKind)>) -> (r: CreateNs)
    ensures
        ({
            let (exists, replace, steps) = create_ns_spec(name@, table_view(table@));
            match r {
                CreateNs::AlreadyExists => exists,
                CreateNs::Build { replace: rp, steps: st } => !exists && rp == replace && steps_view(st@)
                    == steps,
            }
        }),
{
    let s = string_to_chars(name);
    let kind = lookup_kind(table, &s);
    let replace = match kind {
        Some(ModuleKind::Namespace) => {
            return CreateNs::AlreadyExists;
        },
        Some(ModuleKind::Other) => true,
        None => false,
    };
    let ghost t = table_view(table@);
    let mut steps: Vec<NsStep> = Vec::new();
    let mut start: usize = 0;
    let mut j: usize = 0;
    assert(steps_view(steps@) =~= Seq::<NsStepV>::empty());
    assert(Seq::<NsStepV>::empty() + steps_from(s@, 0, t) =~= steps_from(s@, 0, t));
    loop
        invariant
            start <= j <= s@.len(),
            t == table_view(table@),
            s@ == name@,
            module_kind(t, s@) != Some(ModuleKind::Namespace),
            replace == (module_kind(t, s@) == Some(ModuleKind::Other)),
            steps_from(s@, 0, t) == steps_view(steps@) + steps_from(s@, start as nat, t),
            next_dot(s@, start as nat) == next_dot(s@, j as nat),
        decreases s@.len() - j,
    {
        proof {
            lemma_next_dot(s@, j as nat);
        }
        if j == s.len() {
            let part = sub_chars(&s, start, j);
            assert(part@ =~= s@.skip(start as int));
            let ghost before = steps_view(steps@);
            steps.push(
                NsStep {
                    name: chars_to_string(&s),
                    part: chars_to_string(&part),
                    action: StepAction::CreateNamespace,
                },
            );
            assert(steps_view(steps@) =~= before + steps_from(s@, start as nat, t));
            return CreateNs::Build { replace, steps };
        }
        if s[j] == '.' {
            let prefix = sub_chars(&s, 0, j);
            let part = sub_chars(&s, start, j);
            assert(prefix@ =~= s@.take(j as int));
            let action = match lookup_kind(table, &prefix) {
                Some(_) => StepAction::UseExisting,
                None => StepAction::CreatePlaceholder,
            };
            let ghost before = steps_view(steps@);
            let ghost rest = steps_from(s@, (j + 1) as nat, t);
            steps.push(NsStep { name: chars_to_string(&prefix), part: chars_to_string(&part), action });
            assert(steps_view(steps@) =~= before.push(
                NsStepV { name: s@.take(j as int), part: s@.subrange(start as int, j as int), action },
            ));
            assert(before.push(
                NsStepV { name: s@.take(j as int), part: s@.subrange(start as int, j as int), action },
            ) + rest =~= before + (seq![
                NsStepV { name: s@.take(j as int), part: s@.subrange(start as int, j as int), action },
            ] + rest));
            start = j + 1;
            j = j + 1;
        } else {
            j = j + 1;
        }
    }
}

/// What carrying out one step does to the module table: a placeholder or
/// the new namespace is registered under the step's name, ahead of any
/// earlier entry; an existing module is left as it is.
pub open spec fn apply_step(table: Seq<(Seq<char>, ModuleKind)>, st: NsStepV) -> Seq<(Seq<char>, ModuleKind)> {
    match st.action {
        StepAction::UseExisting => table,
        StepAction::CreatePlaceholder => seq![(st.name, ModuleKind::Other)] + table,
        StepAction::CreateNamespace => seq![(st.name, ModuleKind::Namespace)] + table,
    }
}

/// The module table after the steps of a plan, in order.
pub open spec fn apply_steps(table: Seq<(Seq<char>, ModuleKind)>, steps: Seq<NsStepV>) -> Seq<(Seq<char>, ModuleKind)>
    decreases steps.len(),
{
    if steps.len() == 0 {
        table
    } else {
        apply_steps(apply_step(table, steps[0]), steps.drop_first())
    }
}

/// The steps for a name end with the step that creates the namespace
/// itself.
proof fn lemma_steps_end(s: Seq<char>, start: nat, table: Seq<(Seq<char>, ModuleKind)>)
    ensures
        steps_from(s, start, table).len() > 0,
        steps_from(s, start, table).last().name == s,
        steps_from(s, start, table).last().action == StepAction::CreateNamespace,
    decreases s.len() - start,
{
    lemma_next_dot(s, start);
    match next_dot(s, start) {
        Some(j) => {
            lemma_steps_end(s, j + 1, table);
            let rest = steps_from(s, j + 1, table);
            let st = NsStepV {
                name: s.take(j as int),
                part: s.subrange(start as int, j as int),
                action: if module_kind(table, s.take(j as int)) is Some {
                    StepAction::UseExisting
                } else {
                    StepAction::CreatePlaceholder
                },
            };
            assert(steps_from(s, start, table) == seq![st] + rest);
            assert((seq![st] + rest).last() == rest.last());
        },
        None => {},
    }
}

/// Carrying out steps that end by creating namespace `name` leaves `name`
/// registered as a namespace, ahead of everything else.
proof fn lemma_apply_steps_end(table: Seq<(Seq<char>, ModuleKind)>, steps: Seq<NsStepV>, name: Seq<char>)
    requires
        steps.len() > 0,
        steps.last().name == name,
        steps.last().action == StepAction::CreateNamespace,
    ensures
        apply_steps(table, steps).len() > 0,
        apply_steps(table, steps)[0] == (name, ModuleKind::Namespace),
    decreases steps.len(),
{
    let rest = steps.drop_first();
    assert(apply_steps(table, steps) == apply_steps(apply_step(table, steps[0]), rest));
    if steps.len() == 1 {
        assert(rest.len() == 0);
        assert(steps[0] == steps.last());
        assert(apply_steps(apply_step(table, steps[0]), rest) == apply_step(table, steps[0]));
        assert(apply_step(table, steps[0])[0] == (name, ModuleKind::Namespace));
    } else {
        assert(rest.last() == steps.last());
        lemma_apply_steps_end(apply_step(table, steps[0]), rest, name);
    }
}

/// Creating a namespace twice: once the module table holds what the first
/// call's plan registers, the second call finds the namespace and builds
/// nothing.
pub proof fn law_create_ns_twice(name: Seq<char>, table: Seq<(Seq<char>, ModuleKind)>)
    ensures
        ({
            let (exists, _, steps) = create_ns_spec(name, table);
            let after = if exists {
                table
            } else {
                apply_steps(table, steps)
            };
            create_ns_spec(name, after) == (true, false, Seq::<NsStepV>::empty())
        }),
{
    let (exists, _, steps) = create_ns_spec(name, table);
    if !exists {
        lemma_steps_end(name, 0, table);
        lemma_apply_steps_end(table, steps, name);
    }
}

/// A Python "dunder" name: it starts and ends with `__`.
pub open spec fn spec_is_dunder(key: Seq<char>) -> bool {
    key.len() >= 2 && key[0] == '_' && key[1] == '_' && key[key.len() - 2] == '_' && key[key.len()
        - 1] == '_'
}

/// Does `key` start and end with `__`? Such attributes are module
/// machinery: they are not carried over when a placeholder is replaced,
/// and not listed by `ns-map`.
pub fn is_dunder(key: &str) -> (r: bool)
    ensures
        r == spec_is_dunder(key@),
{
    let v = string_to_chars(key);
    let n = v.len();
    n >= 2 && v[0] == '_' && v[1] == '_' && v[n - 2] == '_' && v[n - 1] == '_'
}

} // verus!
