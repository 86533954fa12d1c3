//! The anonymous-function literal `#(...)`: its `%` parameters, and the
//! `(fn [params] body)` form it reads as.

use vstd::prelude::*;
use crate::reader::context::ReaderContext;
use crate::reader::errors::{ReadError, Scan, form_outcome};
use crate::reader::form::{
    Form,
    FormV,
    Sym,
    SymV,
    copy_form,
    form_view,
    forms_equal_one,
    forms_view,
    lemma_forms_view,
    lemma_forms_view_push,
    sym_v,
};
use crate::reader::errors::Coll;
use crate::reader::forms::{lemma_items_scan_list, list_reader, list_scan, mk_sym};
use crate::reader::lexer::{is_digit, spec_is_digit};
use crate::reader::number::{digit_value, digits_value, lemma_digits_value_step};
use crate::reader::source::Source;
use crate::text::{chars_eq_str, decimal, push_char, push_u64_decimal, string_to_chars};

verus! {

/// Every character of `d` is a decimal digit.
pub open spec fn all_digits(d: Seq<char>) -> bool {
    forall|j: int| 0 <= j < d.len() ==> spec_is_digit(#[trigger] d[j])
}

/// `s` without a leading `+`.
pub open spec fn drop_plus(s: Seq<char>) -> Seq<char> {
    if s.len() > 0 && s[0] == '+' {
        s.drop_first()
    } else {
        s
    }
}

/// The text after `%` read as a `usize`, as `str::parse` reads one: an
/// optional `+`, then one or more decimal digits, with a value of at most
/// `usize::MAX`.
pub open spec fn parse_usize(s: Seq<char>) -> Option<nat> {
    let d = drop_plus(s);
    if d.len() > 0 && all_digits(d) && digits_value(d) <= usize::MAX {
        Some(digits_value(d))
    } else {
        None
    }
}

/// What the parameters found so far and those found in a further part of
/// the body come to: the highest parameter number, and whether `%&` occurs.
pub open spec fn combine(a: (nat, bool), b: (nat, bool)) -> (nat, bool) {
    (
        if a.0 >= b.0 {
            a.0
        } else {
            b.0
        },
        a.1 || b.1,
    )
}

/// The parameters a symbol stands for: `%` is the first, `%N` the `N`th,
/// `%&` the rest; a qualified symbol or any other name stands for none.
pub open spec fn sym_params(s: SymV) -> (nat, bool) {
    if s.ns is Some {
        (0, false)
    } else if s.name == "%"@ {
        (1, false)
    } else if s.name == "%&"@ {
        (0, true)
    } else if s.name.len() > 0 && s.name[0] == '%' {
        match parse_usize(s.name.drop_first()) {
            Some(n) => (n, false),
            None => (0, false),
        }
    } else {
        (0, false)
    }
}

/// The parameters used anywhere in `f`: in symbols, and in the items of
/// lists, vectors, maps (keys and values) and sets, at any depth. Metadata
/// is not looked into.
pub open spec fn params_of(f: FormV) -> (nat, bool)
    decreases f,
{
    match f {
        FormV::Symbol(s) => sym_params(s),
        FormV::List(items) => items_params(items),
        FormV::Vector(items) => items_params(items),
        FormV::ArrayMap(items) => items_params(items),
        FormV::HashSet(items) => items_params(items),
        FormV::Meta(_, t) => params_of(*t),
        _ => (0, false),
    }
}

/// The parameters used in any of the forms of `s`.
pub open spec fn items_params(s: Seq<FormV>) -> (nat, bool)
    decreases s,
{
    if s.len() == 0 {
        (0, false)
    } else {
        combine(items_params(s.subrange(0, s.len() - 1)), params_of(s[s.len() - 1]))
    }
}

/// The value of the digits of `d` from index `start` on, read as
/// [`parse_usize`] reads them.
fn parse_usize_exec(d: &Vec<char>, start: usize) -> (r: Option<usize>)
    requires
        start <= d@.len(),
    ensures
        match parse_usize(d@.skip(start as int)) {
            Some(n) => r == Some(n as usize),
            None => r is None,
        },
{
    let ghost s = d@.skip(start as int);
    let mut i = start;
    if i < d.len() && d[i] == '+' {
        i = i + 1;
    }
    let ghost t = d@.skip(i as int);
    assert(t =~= drop_plus(s));
    let i0 = i;
    if i0 >= d.len() {
        return None;
    }
    let limit: u128 = usize::MAX as u128;
    let mut acc: u128 = 0;
    let mut over = false;
    while i < d.len()
        invariant
            i0 <= i <= d@.len(),
            i0 < d@.len(),
            t == d@.skip(i0 as int),
            s == d@.skip(start as int),
            t == drop_plus(s),
            limit == usize::MAX,
            forall|j: int| 0 <= j < i - i0 ==> spec_is_digit(#[trigger] t[j]),
            !over ==> acc == digits_value(t.take(i - i0)) && acc <= limit,
            over ==> digits_value(t.take(i - i0)) > limit,
        decreases d@.len() - i,
    {
        let c = d[i];
        assert(t[i - i0] == c);
        if !is_digit(c) {
            return None;
        }
        proof {
            lemma_digits_value_step(t, i - i0);
        }
        let dv = (c as u32 - '0' as u32) as u128;
        assert(dv == digit_value(c));
        if !over {
            acc = acc * 10 + dv;
            if acc > limit {
                over = true;
            }
        }
        i = i + 1;
    }
    assert(t.take(i - i0) =~= t);
    if over {
        None
    } else {
        Some(acc as usize)
    }
}

/// [`sym_params`] of a symbol.
fn sym_params_exec(s: &Sym) -> (r: (usize, bool))
    ensures
        (r.0 as nat, r.1) == sym_params(s@),
{
    if s.ns.is_some() {
        return (0, false);
    }
    let name = string_to_chars(s.name.as_str());
    if chars_eq_str(&name, "%") {
        (1, false)
    } else if chars_eq_str(&name, "%&") {
        (0, true)
    } else if name.len() > 0 && name[0] == '%' {
        assert(name@.skip(1) =~= name@.drop_first());
        match parse_usize_exec(&name, 1) {
            Some(n) => (n, false),
            None => (0, false),
        }
    } else {
        (0, false)
    }
}

/// Walk `f` and raise `max_n` to the highest parameter number found, and
/// set `has_rest` when `%&` occurs.
pub fn scan_anon_params(f: &Form, max_n: &mut usize, has_rest: &mut bool)
    ensures
        (*final(max_n) as nat, *final(has_rest)) == combine(
            (*old(max_n) as nat, *old(has_rest)),
            params_of(f@),
        ),
    decreases f,
{
    match f {
        Form::Symbol(s) => {
            let (n, rest) = sym_params_exec(s);
            if n > *max_n {
                *max_n = n;
            }
            if rest {
                *has_rest = true;
            }
        },
        Form::List(v) => scan_items(v, max_n, has_rest),
        Form::Vector(v) => scan_items(v, max_n, has_rest),
        Form::ArrayMap(v) => scan_items(v, max_n, has_rest),
        Form::HashSet(v) => scan_items(v, max_n, has_rest),
        Form::Meta(_, t) => scan_anon_params(t, max_n, has_rest),
        _ => {},
    }
}

fn scan_items(v: &Vec<Form>, max_n: &mut usize, has_rest: &mut bool)
    ensures
        (*final(max_n) as nat, *final(has_rest)) == combine(
            (*old(max_n) as nat, *old(has_rest)),
            items_params(forms_view(v@)),
        ),
    decreases v,
{
    proof {
        lemma_forms_view(v@);
    }
    let ghost s = forms_view(v@);
    let mut i: usize = 0;
    assert(s.take(0) =~= Seq::<FormV>::empty());
    while i < v.len()
        invariant
            i <= v@.len(),
            s == forms_view(v@),
            s.len() == v@.len(),
            forall|j: int| 0 <= j < v@.len() ==> #[trigger] s[j] == form_view(v@[j]),
            (*max_n as nat, *has_rest) == combine(
                (*old(max_n) as nat, *old(has_rest)),
                items_params(s.take(i as int)),
            ),
        decreases v@.len() - i,
    {
        scan_anon_params(&v[i], max_n, has_rest);
        assert(s.take(i + 1).subrange(0, i as int) =~= s.take(i as int));
        assert(s.take(i + 1)[i as int] == s[i as int]);
        i = i + 1;
    }
    assert(s.take(i as int) =~= s);
}

/// Is `c` something that the rewrite of `%` looks into: the symbol `%`, or a
/// collection (a non-empty list)?
pub open spec fn pct_target(c: FormV) -> bool {
    match c {
        FormV::Symbol(_) => c == sym_v("%"@),
        FormV::List(items) => items.len() > 0,
        FormV::Vector(_) | FormV::ArrayMap(_) | FormV::HashSet(_) => true,
        _ => false,
    }
}

/// `f` with every bare `%` replaced by `%1`, at any depth. The collections
/// walked are rebuilt from their rewritten items (a set dropping items that
/// became equal to an earlier one, a map putting its entries in one by one
/// so that of two entries whose keys became equal the later value wins),
/// without the metadata they carried; anything else is left as it is.
pub open spec fn rewrite_pct(f: FormV) -> FormV
    decreases f,
{
    match f {
        FormV::Symbol(_) => if f == sym_v("%"@) {
            sym_v("%1"@)
        } else {
            f
        },
        FormV::List(items) => if items.len() > 0 {
            FormV::List(rewrite_items(items))
        } else {
            f
        },
        FormV::Vector(items) => FormV::Vector(rewrite_items(items)),
        FormV::ArrayMap(items) => FormV::ArrayMap(rebuild_map(rewrite_items(items), items.len() / 2)),
        FormV::HashSet(items) => FormV::HashSet(dedup(rewrite_items(items))),
        FormV::Meta(_, t) => if pct_target(*t) {
            rewrite_pct(*t)
        } else {
            f
        },
        _ => f,
    }
}

/// Index of the first of the first `n` entries of the flattened map `m`
/// whose key is `k`.
pub open spec fn key_pos(m: Seq<FormV>, k: FormV, n: nat) -> Option<nat>
    decreases n,
{
    if n == 0 {
        None
    } else {
        match key_pos(m, k, (n - 1) as nat) {
            Some(j) => Some(j),
            None => if m[2 * (n - 1)] == k {
                Some((n - 1) as nat)
            } else {
                None
            },
        }
    }
}

/// The flattened map `m` with `k` mapped to `v`: the value of `k`'s entry
/// replaced, or a new entry at the end.
pub open spec fn map_assoc(m: Seq<FormV>, k: FormV, v: FormV) -> Seq<FormV> {
    match key_pos(m, k, m.len() / 2) {
        Some(j) => m.update(2 * j + 1 as int, v),
        None => m.push(k).push(v),
    }
}

/// The first `n` entries of the flattened `kvs` put into an empty map one
/// by one.
pub open spec fn rebuild_map(kvs: Seq<FormV>, n: nat) -> Seq<FormV>
    decreases n,
{
    if n == 0 {
        Seq::empty()
    } else {
        map_assoc(rebuild_map(kvs, (n - 1) as nat), kvs[2 * (n - 1)], kvs[2 * (n - 1) + 1])
    }
}

proof fn lemma_key_pos(m: Seq<FormV>, k: FormV, n: nat)
    ensures
        key_pos(m, k, n) matches Some(j) ==> j < n && m[2 * j as int] == k,
    decreases n,
{
    if n > 0 {
        lemma_key_pos(m, k, (n - 1) as nat);
    }
}

/// [`key_pos`]: where the key `k` has its entry in the flattened map `m`.
fn find_key(m: &Vec<Form>, k: &Form) -> (r: Option<usize>)
    ensures
        match key_pos(forms_view(m@), k@, (m@.len() / 2) as nat) {
            Some(j) => r == Some(j as usize),
            None => r is None,
        },
{
    proof {
        lemma_forms_view(m@);
    }
    let ghost fv = forms_view(m@);
    let n = m.len() / 2;
    let mut j: usize = 0;
    while j < n
        invariant
            j <= n,
            n == m@.len() / 2,
            fv == forms_view(m@),
            fv.len() == m@.len(),
            forall|x: int| 0 <= x < m@.len() ==> #[trigger] fv[x] == form_view(m@[x]),
            key_pos(fv, k@, j as nat) is None,
        decreases n - j,
    {
        assert(2 * j < m.len());
        if forms_equal_one(&m[2 * j], k) {
            assert(fv[2 * j as int] == k@);
            proof {
                lemma_key_pos(fv, k@, n as nat);
                lemma_key_pos_prefix(fv, k@, (j + 1) as nat, n as nat);
            }
            return Some(j);
        }
        j = j + 1;
    }
    None
}

/// Where a key has its entry among the first `a` entries, it has the same
/// one among the first `b >= a`.
proof fn lemma_key_pos_prefix(m: Seq<FormV>, k: FormV, a: nat, b: nat)
    requires
        a <= b,
        key_pos(m, k, a) is Some,
    ensures
        key_pos(m, k, b) == key_pos(m, k, a),
    decreases b - a,
{
    if a < b {
        lemma_key_pos_prefix(m, k, a, (b - 1) as nat);
    }
}

/// [`rebuild_map`] of all the entries of `kvs`.
fn rebuild_map_exec(kvs: &Vec<Form>) -> (r: Vec<Form>)
    ensures
        forms_view(r@) == rebuild_map(forms_view(kvs@), (kvs@.len() / 2) as nat),
{
    proof {
        lemma_forms_view(kvs@);
    }
    let ghost s = forms_view(kvs@);
    let n = kvs.len() / 2;
    let mut out: Vec<Form> = Vec::new();
    let mut i: usize = 0;
    assert(forms_view(out@) =~= Seq::<FormV>::empty());
    while i < n
        invariant
            i <= n,
            n == kvs@.len() / 2,
            s == forms_view(kvs@),
            s.len() == kvs@.len(),
            forall|x: int| 0 <= x < kvs@.len() ==> #[trigger] s[x] == form_view(kvs@[x]),
            forms_view(out@) == rebuild_map(s, i as nat),
        decreases n - i,
    {
        assert(2 * i + 1 < kvs.len());
        let k = copy_form(&kvs[2 * i]);
        let v = copy_form(&kvs[2 * i + 1]);
        let ghost m = forms_view(out@);
        proof {
            lemma_forms_view(out@);
            assert(s[2 * i as int] == k@);
            assert(s[2 * i + 1] == v@);
            assert(m.len() == out@.len());
        }
        let _len = out.len();
        match find_key(&out, &k) {
            Some(j) => {
                proof {
                    let np: nat = (out@.len() / 2) as nat;
                    assert(m.len() / 2 == np);
                    lemma_key_pos(m, k@, np);
                    assert(key_pos(m, k@, np) is Some);
                    let j0 = key_pos(m, k@, np)->0;
                    assert(j0 < np);
                    assert(j0 as usize == j);
                    assert(j as nat == j0);
                    assert(j < out@.len() / 2);
                    assert(2 * j + 1 < out@.len());
                    assert(rebuild_map(s, (i + 1) as nat) == map_assoc(m, k@, v@));
                    assert(map_assoc(m, k@, v@) == m.update(2 * j + 1, v@));
                }
                let ghost before = out@;
                out.set(2 * j + 1, v);
                proof {
                    lemma_forms_view(out@);
                    lemma_forms_view(before);
                    assert(forms_view(out@) =~= m.update(2 * j + 1, v@));
                }
            },
            None => {
                proof {
                    assert(rebuild_map(s, (i + 1) as nat) == map_assoc(m, k@, v@));
                    assert(map_assoc(m, k@, v@) == m.push(k@).push(v@));
                    lemma_forms_view_push(out@, k);
                }
                out.push(k);
                proof {
                    lemma_forms_view_push(out@, v);
                }
                out.push(v);
            },
        }
        i = i + 1;
    }
    out
}

/// [`rewrite_pct`] of each form of `s`.
pub open spec fn rewrite_items(s: Seq<FormV>) -> Seq<FormV>
    decreases s,
{
    if s.len() == 0 {
        s
    } else {
        rewrite_items(s.subrange(0, s.len() - 1)).push(rewrite_pct(s[s.len() - 1]))
    }
}

proof fn lemma_rewrite_items_len(s: Seq<FormV>)
    ensures
        rewrite_items(s).len() == s.len(),
    decreases s.len(),
{
    if s.len() > 0 {
        lemma_rewrite_items_len(s.subrange(0, s.len() - 1));
    }
}

/// `s` keeping only the first of equal forms.
pub open spec fn dedup(s: Seq<FormV>) -> Seq<FormV>
    decreases s.len(),
{
    if s.len() == 0 {
        s
    } else {
        let d = dedup(s.drop_last());
        if d.contains(s.last()) {
            d
        } else {
            d.push(s.last())
        }
    }
}

fn contains_form(v: &Vec<Form>, f: &Form) -> (r: bool)
    ensures
        r == forms_view(v@).contains(f@),
{
    proof {
        lemma_forms_view(v@);
    }
    let mut i: usize = 0;
    while i < v.len()
        invariant
            i <= v@.len(),
            forms_view(v@).len() == v@.len(),
            forall|j: int| 0 <= j < v@.len() ==> #[trigger] forms_view(v@)[j] == form_view(v@[j]),
            forall|j: int| 0 <= j < i ==> forms_view(v@)[j] != f@,
        decreases v@.len() - i,
    {
        if forms_equal_one(&v[i], f) {
            assert(forms_view(v@)[i as int] == f@);
            return true;
        }
        i = i + 1;
    }
    false
}

/// The forms of `v`, keeping only the first of equal ones.
fn dedup_forms(v: &Vec<Form>) -> (r: Vec<Form>)
    ensures
        forms_view(r@) == dedup(forms_view(v@)),
{
    proof {
        lemma_forms_view(v@);
    }
    let ghost s = forms_view(v@);
    let mut out: Vec<Form> = Vec::new();
    let mut i: usize = 0;
    assert(forms_view(out@) =~= dedup(s.take(0)));
    while i < v.len()
        invariant
            i <= v@.len(),
            s == forms_view(v@),
            s.len() == v@.len(),
            forall|j: int| 0 <= j < v@.len() ==> #[trigger] s[j] == form_view(v@[j]),
            forms_view(out@) == dedup(s.take(i as int)),
        decreases v@.len() - i,
    {
        assert(s.take(i + 1).drop_last() =~= s.take(i as int));
        assert(s.take(i + 1).last() == s[i as int]);
        if !contains_form(&out, &v[i]) {
            let f = copy_form(&v[i]);
            proof {
                lemma_forms_view_push(out@, f);
            }
            out.push(f);
        }
        i = i + 1;
    }
    assert(s.take(i as int) =~= s);
    out
}

fn pct_target_exec(c: &Form) -> (r: bool)
    ensures
        r == pct_target(c@),
{
    match c {
        Form::Symbol(s) => s.ns.is_none() && chars_eq_str(&string_to_chars(s.name.as_str()), "%"),
        Form::List(v) => {
            proof {
                lemma_forms_view(v@);
            }
            v.len() > 0
        },
        Form::Vector(_) | Form::ArrayMap(_) | Form::HashSet(_) => true,
        _ => false,
    }
}

/// [`rewrite_pct`]: a copy of `f` with every bare `%` replaced by `%1`.
pub fn rewrite_bare_percent(f: &Form) -> (r: Form)
    ensures
        r@ == rewrite_pct(f@),
    decreases f,
{
    match f {
        Form::Symbol(_) => {
            if pct_target_exec(f) {
                mk_sym("%1")
            } else {
                copy_form(f)
            }
        },
        Form::List(v) => {
            proof {
                lemma_forms_view(v@);
            }
            if v.len() > 0 {
                Form::List(rewrite_vec(v))
            } else {
                copy_form(f)
            }
        },
        Form::Vector(v) => Form::Vector(rewrite_vec(v)),
        Form::ArrayMap(v) => {
            proof {
                lemma_forms_view(v@);
            }
            let rw = rewrite_vec(v);
            proof {
                lemma_forms_view(rw@);
                lemma_rewrite_items_len(forms_view(v@));
            }
            Form::ArrayMap(rebuild_map_exec(&rw))
        },
        Form::HashSet(v) => Form::HashSet(dedup_forms(&rewrite_vec(v))),
        Form::Meta(_, t) => {
            if pct_target_exec(t) {
                rewrite_bare_percent(t)
            } else {
                copy_form(f)
            }
        },
        _ => copy_form(f),
    }
}

fn rewrite_vec(v: &Vec<Form>) -> (r: Vec<Form>)
    ensures
        forms_view(r@) == rewrite_items(forms_view(v@)),
    decreases v,
{
    proof {
        lemma_forms_view(v@);
    }
    let ghost s = forms_view(v@);
    let mut out: Vec<Form> = Vec::new();
    let mut i: usize = 0;
    assert(forms_view(out@) =~= rewrite_items(s.take(0)));
    while i < v.len()
        invariant
            i <= v@.len(),
            s == forms_view(v@),
            s.len() == v@.len(),
            forall|j: int| 0 <= j < v@.len() ==> #[trigger] s[j] == form_view(v@[j]),
            forms_view(out@) == rewrite_items(s.take(i as int)),
        decreases v@.len() - i,
    {
        let f = rewrite_bare_percent(&v[i]);
        proof {
            lemma_forms_view_push(out@, f);
        }
        out.push(f);
        assert(s.take(i + 1).subrange(0, i as int) =~= s.take(i as int));
        assert(s.take(i + 1)[i as int] == s[i as int]);
        i = i + 1;
    }
    assert(s.take(i as int) =~= s);
    out
}

/// The parameter symbol `%i`.
pub open spec fn pct_arg(i: nat) -> FormV {
    sym_v(seq!['%'] + decimal(i))
}

/// The parameter vector of an anonymous function: `%1` to `%n`, then
/// `& %&` when the rest parameter is used.
pub open spec fn anon_args(n: nat, rest: bool) -> Seq<FormV> {
    Seq::new(n, |j: int| pct_arg((j + 1) as nat)) + if rest {
        seq![sym_v("&"@), sym_v("%&"@)]
    } else {
        Seq::empty()
    }
}

/// What `#(body ...)` reads as: `(fn [%1 ... %n & %&] (body ...))`, with
/// bare `%` rewritten to `%1` when any numbered parameter is used.
pub open spec fn anon_fn_form(body: Seq<FormV>) -> FormV {
    let (n, rest) = items_params(body);
    let b = if n >= 1 {
        rewrite_pct(FormV::List(body))
    } else {
        FormV::List(body)
    };
    FormV::List(seq![sym_v("fn"@), FormV::Vector(anon_args(n, rest)), b])
}

/// What reading `#(...)` does with `s`, which starts with the `(`.
pub open spec fn anon_fn_scan(s: Seq<char>, ctx: ReaderContext) -> Scan {
    match list_scan(s, ctx) {
        Scan::Done(FormV::List(body), k) => Scan::Done(anon_fn_form(body), k),
        other => other,
    }
}

fn pct_arg_exec(i: usize) -> (f: Form)
    ensures
        f@ == pct_arg(i as nat),
{
    let mut name = String::new();
    push_char(&mut name, '%');
    push_u64_decimal(&mut name, i as u64);
    assert(name@ =~= seq!['%'] + decimal(i as nat));
    Form::Symbol(Sym { ns: None, name })
}

fn anon_args_exec(n: usize, rest: bool) -> (v: Vec<Form>)
    ensures
        forms_view(v@) == anon_args(n as nat, rest),
{
    let mut v: Vec<Form> = Vec::new();
    let mut i: usize = 0;
    assert(forms_view(v@) =~= Seq::new(0, |j: int| pct_arg((j + 1) as nat)));
    while i < n
        invariant
            i <= n,
            forms_view(v@) == Seq::new(i as nat, |j: int| pct_arg((j + 1) as nat)),
        decreases n - i,
    {
        let f = pct_arg_exec(i + 1);
        proof {
            lemma_forms_view_push(v@, f);
        }
        v.push(f);
        assert(Seq::new((i + 1) as nat, |j: int| pct_arg((j + 1) as nat)) =~= Seq::new(
            i as nat,
            |j: int| pct_arg((j + 1) as nat),
        ).push(pct_arg((i + 1) as nat)));
        i = i + 1;
    }
    let ghost before = forms_view(v@);
    if rest {
        let amp = mk_sym("&");
        proof {
            lemma_forms_view_push(v@, amp);
        }
        v.push(amp);
        let pr = mk_sym("%&");
        proof {
            lemma_forms_view_push(v@, pr);
        }
        v.push(pr);
    }
    assert(forms_view(v@) =~= anon_args(n as nat, rest));
    v
}

/// `#(body ...)` reads as `(fn [%1 ... %n & %&] (body ...))`. The `#` is
/// consumed and the next character is the `(`.
pub fn anon_fn_reader(src: &mut Source, ctx: &ReaderContext) -> (r: Result<Form, ReadError>)
    requires
        old(src).wf(),
        old(src).has_room(),
        old(src).rest().len() > 0,
        old(src).rest()[0] == '(',
    ensures
        form_outcome(*old(src), *final(src), r, anon_fn_scan(old(src).rest(), *ctx)),
        final(src).wf(),
        final(src).has_room(),
{
    proof {
        lemma_items_scan_list(old(src).rest(), *ctx, ')', Coll::List, 1, Seq::empty());
    }
    let body_list = match list_reader(src, ctx) {
        Ok(b) => b,
        Err(e) => {
            return Err(e);
        },
    };
    let mut max_n: usize = 0;
    let mut has_rest = false;
    scan_anon_params(&body_list, &mut max_n, &mut has_rest);
    let args = anon_args_exec(max_n, has_rest);
    let body = if max_n >= 1 {
        rewrite_bare_percent(&body_list)
    } else {
        body_list
    };
    let mut out: Vec<Form> = Vec::new();
    let head = mk_sym("fn");
    proof {
        lemma_forms_view_push(out@, head);
    }
    out.push(head);
    let av = Form::Vector(args);
    proof {
        lemma_forms_view_push(out@, av);
    }
    out.push(av);
    proof {
        lemma_forms_view_push(out@, body);
    }
    out.push(body);
    assert(forms_view(out@) =~= seq![sym_v("fn"@), av@, body@]) by {
        assert(forms_view(Seq::<Form>::empty()) =~= Seq::<FormV>::empty());
    }
    Ok(Form::List(out))
}


/// Every form of `s` is left as it is by [`rewrite_pct`].
pub open spec fn all_rewritten(s: Seq<FormV>) -> bool {
    forall|i: int| 0 <= i < s.len() ==> #[trigger] rewrite_pct(s[i]) == s[i]
}

/// The key of entry `j` of a flattened map.
pub open spec fn key_at(m: Seq<FormV>, j: int) -> FormV {
    m[2 * j]
}

/// No two entries of the flattened map `m` have equal keys.
pub open spec fn distinct_keys(m: Seq<FormV>) -> bool {
    forall|a: int, b: int| 0 <= a < b < m.len() / 2 ==> #[trigger] key_at(m, a) != #[trigger] key_at(m, b)
}

/// No form occurs twice in `s`.
pub open spec fn no_dups(s: Seq<FormV>) -> bool {
    forall|a: int, b: int| 0 <= a < b < s.len() ==> s[a] != s[b]
}

proof fn lemma_rewrite_items(s: Seq<FormV>)
    ensures
        rewrite_items(s).len() == s.len(),
        forall|i: int| 0 <= i < s.len() ==> #[trigger] rewrite_items(s)[i] == rewrite_pct(s[i]),
    decreases s.len(),
{
    if s.len() > 0 {
        let init = s.subrange(0, s.len() - 1);
        lemma_rewrite_items(init);
        assert forall|i: int| 0 <= i < s.len() implies #[trigger] rewrite_items(s)[i] == rewrite_pct(s[i]) by {
            if i < s.len() - 1 {
                assert(init[i] == s[i]);
            }
        }
    }
}

proof fn lemma_rewrite_items_fixed(s: Seq<FormV>)
    requires
        all_rewritten(s),
    ensures
        rewrite_items(s) == s,
{
    lemma_rewrite_items(s);
    assert(rewrite_items(s) =~= s);
}

proof fn lemma_key_pos_none(m: Seq<FormV>, k: FormV, n: nat)
    ensures
        key_pos(m, k, n) is None ==> forall|j: int| 0 <= j < n ==> #[trigger] key_at(m, j) != k,
    decreases n,
{
    if n > 0 {
        lemma_key_pos_none(m, k, (n - 1) as nat);
    }
}

proof fn lemma_rebuild_map(kvs: Seq<FormV>, n: nat)
    requires
        2 * n <= kvs.len(),
    ensures
        rebuild_map(kvs, n).len() % 2 == 0,
        distinct_keys(rebuild_map(kvs, n)),
        all_rewritten(kvs) ==> all_rewritten(rebuild_map(kvs, n)),
    decreases n,
{
    if n > 0 {
        let m = rebuild_map(kvs, (n - 1) as nat);
        lemma_rebuild_map(kvs, (n - 1) as nat);
        let k = kvs[2 * (n - 1)];
        let v = kvs[2 * (n - 1) + 1];
        let r = rebuild_map(kvs, n);
        lemma_key_pos(m, k, m.len() / 2);
        lemma_key_pos_none(m, k, m.len() / 2);
        match key_pos(m, k, m.len() / 2) {
            Some(j) => {
                assert(r == m.update(2 * j + 1 as int, v));
                assert forall|a: int| 0 <= a < r.len() / 2 implies #[trigger] key_at(r, a) == key_at(m, a) by {}
                if all_rewritten(kvs) {
                    assert(rewrite_pct(kvs[2 * (n - 1) + 1]) == kvs[2 * (n - 1) + 1]);
                    assert forall|i: int| 0 <= i < r.len() implies #[trigger] rewrite_pct(r[i]) == r[i] by {
                        if i != 2 * j + 1 {
                            assert(r[i] == m[i]);
                        }
                    }
                }
            },
            None => {
                assert(r == m.push(k).push(v));
                assert(r.len() / 2 == m.len() / 2 + 1);
                assert forall|a: int| 0 <= a < m.len() / 2 implies #[trigger] key_at(r, a) == key_at(m, a) by {}
                assert(key_at(r, (m.len() / 2) as int) == k);
                assert forall|a: int, b: int| 0 <= a < b < r.len() / 2 implies #[trigger] key_at(r, a) != #[trigger] key_at(r, b) by {
                    if b < m.len() / 2 {
                        assert(key_at(m, a) != key_at(m, b));
                    } else {
                        assert(key_at(m, a) != k);
                    }
                }
                if all_rewritten(kvs) {
                    assert(rewrite_pct(kvs[2 * (n - 1)]) == kvs[2 * (n - 1)]);
                    assert(rewrite_pct(kvs[2 * (n - 1) + 1]) == kvs[2 * (n - 1) + 1]);
                    assert forall|i: int| 0 <= i < r.len() implies #[trigger] rewrite_pct(r[i]) == r[i] by {
                        if i < m.len() {
                            assert(r[i] == m[i]);
                        }
                    }
                }
            },
        }
    }
}

/// Putting the entries of a map without repeated keys into an empty map
/// one by one gives it back.
proof fn lemma_rebuild_distinct(m: Seq<FormV>, n: nat)
    requires
        m.len() % 2 == 0,
        distinct_keys(m),
        n <= m.len() / 2,
    ensures
        rebuild_map(m, n) == m.take(2 * n as int),
    decreases n,
{
    if n > 0 {
        lemma_rebuild_distinct(m, (n - 1) as nat);
        let p = m.take(2 * (n - 1));
        let k = m[2 * (n - 1)];
        lemma_key_pos(p, k, p.len() / 2);
        assert(p.len() / 2 == n - 1);
        match key_pos(p, k, p.len() / 2) {
            Some(j) => {
                assert(p[2 * j as int] == m[2 * j as int]);
                assert(key_at(m, j as int) != key_at(m, n - 1));
            },
            None => {},
        }
        assert(m.take(2 * n as int) =~= p.push(k).push(m[2 * (n - 1) + 1]));
    }
}

proof fn lemma_dedup(s: Seq<FormV>)
    ensures
        no_dups(dedup(s)),
        all_rewritten(s) ==> all_rewritten(dedup(s)),
        forall|i: int| 0 <= i < dedup(s).len() ==> s.contains(#[trigger] dedup(s)[i]),
    decreases s.len(),
{
    if s.len() > 0 {
        let p = s.drop_last();
        lemma_dedup(p);
        let d = dedup(p);
        assert forall|i: int| 0 <= i < d.len() implies s.contains(#[trigger] d[i]) by {
            let x = choose|x: int| 0 <= x < p.len() && p[x] == d[i];
            assert(s[x] == p[x]);
        }
        assert(s.contains(s.last())) by {
            assert(s[s.len() - 1] == s.last());
        }
        if all_rewritten(s) {
            assert forall|i: int| 0 <= i < p.len() implies #[trigger] rewrite_pct(p[i]) == p[i] by {
                assert(p[i] == s[i]);
            }
            assert(rewrite_pct(s[s.len() - 1]) == s[s.len() - 1]);
        }
        if !d.contains(s.last()) {
            let r = d.push(s.last());
            assert forall|a: int, b: int| 0 <= a < b < r.len() implies r[a] != r[b] by {
                if b == d.len() {
                    assert(r[a] == d[a]);
                }
            }
        }
    }
}

proof fn lemma_dedup_no_dups(s: Seq<FormV>)
    requires
        no_dups(s),
    ensures
        dedup(s) == s,
    decreases s.len(),
{
    if s.len() > 0 {
        let p = s.drop_last();
        assert(no_dups(p)) by {
            assert forall|a: int, b: int| 0 <= a < b < p.len() implies p[a] != p[b] by {
                assert(p[a] == s[a] && p[b] == s[b]);
            }
        }
        lemma_dedup_no_dups(p);
        if p.contains(s.last()) {
            let x = choose|x: int| 0 <= x < p.len() && p[x] == s.last();
            assert(s[x] == s[s.len() - 1]);
        }
        assert(p.push(s.last()) =~= s);
    }
}

/// Rewriting bare `%` a second time changes nothing: what one rewrite
/// gives back has no bare `%` left in the places that are walked, and its
/// sets and maps have no repeated items or keys.
pub proof fn law_rewrite_pct_idempotent(f: FormV)
    ensures
        rewrite_pct(rewrite_pct(f)) == rewrite_pct(f),
    decreases f,
{
    match f {
        FormV::Symbol(_) => {
            if f == sym_v("%"@) {
                reveal_strlit("%1");
                reveal_strlit("%");
                assert(sym_v("%1"@) != sym_v("%"@)) by {
                    assert("%1"@.len() != "%"@.len());
                }
            }
        },
        FormV::List(items) => {
            if items.len() > 0 {
                lemma_items_idempotent(items);
                lemma_rewrite_items(items);
            }
        },
        FormV::Vector(items) => {
            lemma_items_idempotent(items);
        },
        FormV::ArrayMap(items) => {
            lemma_items_idempotent(items);
            lemma_rewrite_items(items);
            let rw = rewrite_items(items);
            let m = rebuild_map(rw, items.len() / 2);
            lemma_rebuild_map(rw, items.len() / 2);
            lemma_rewrite_items_fixed(m);
            lemma_rebuild_distinct(m, m.len() / 2);
            assert(m.take(2 * (m.len() / 2) as int) =~= m);
        },
        FormV::HashSet(items) => {
            lemma_items_idempotent(items);
            let rw = rewrite_items(items);
            lemma_dedup(rw);
            lemma_rewrite_items_fixed(dedup(rw));
            lemma_dedup_no_dups(dedup(rw));
        },
        FormV::Meta(_, t) => {
            if pct_target(*t) {
                law_rewrite_pct_idempotent(*t);
            }
        },
        _ => {},
    }
}

/// The rewritten forms of `items` are each left as they are by a second
/// rewrite.
proof fn lemma_items_idempotent(items: Seq<FormV>)
    ensures
        all_rewritten(rewrite_items(items)),
        rewrite_items(rewrite_items(items)) == rewrite_items(items),
    decreases items,
{
    lemma_rewrite_items(items);
    assert forall|i: int| 0 <= i < rewrite_items(items).len() implies #[trigger] rewrite_pct(
        rewrite_items(items)[i],
    ) == rewrite_items(items)[i] by {
        law_rewrite_pct_idempotent(items[i]);
    }
    lemma_rewrite_items_fixed(rewrite_items(items));
}

} // verus!
