//! Syntax-quote: `` `form `` reads as the form that rebuilds `form` when it
//! is evaluated, with symbols qualified, `name#` auto-gensyms made unique,
//! `~x` filled in and `~@xs` spliced into the enclosing collection.

use vstd::prelude::*;
use crate::reader::context::{ReaderContext, assoc_get, lookup_pair, pairs_view};
use crate::reader::dispatch::{lemma_outcome_shift, read_one, read_one_scan};
use crate::reader::errors::{ReadError, ReadErrorKind, ReadErrorKindV, Scan, form_outcome, scan_shift};
use crate::reader::form::{
    Form,
    FormV,
    Sym,
    SymV,
    copy_form,
    form_view,
    forms_view,
    lemma_forms_view,
    lemma_forms_view_push,
    qsym_v,
    sym_v,
};
use crate::reader::forms::{core_form, mk_list2, mk_qsym, mk_sym};
use crate::reader::source::Source;
use crate::text::{
    chars_eq_str,
    chars_to_string,
    contains_char,
    decimal,
    push_str,
    push_u64_decimal,
    string_eq_str,
    string_to_chars,
    sub_chars,
};

verus! {

/// What syntax-quote carries through a form: the auto-gensyms made so far
/// (base name, generated name) and the number the next one gets.
pub ghost struct SqState {
    pub gensyms: Seq<(Seq<char>, Seq<char>)>,
    pub next: u64,
}

/// The outcome of syntax-quoting: a result and the state after it, or the
/// `splice not in list` error together with the state reached when it was
/// met.
pub ghost enum SqOut<T> {
    Done(T, SqState),
    Splice(SqState),
}

/// The symbol `clojure.core/name`.
pub open spec fn cc(name: Seq<char>) -> FormV {
    qsym_v("clojure.core"@, name)
}

/// `(quote f)`.
pub open spec fn quoted(f: FormV) -> FormV {
    FormV::List(seq![sym_v("quote"@), f])
}

/// Data that syntax-quote leaves as they are.
pub open spec fn self_evaluating(f: FormV) -> bool {
    match f {
        FormV::Nil | FormV::Bool(_) | FormV::Int(_) | FormV::BigInt(_) | FormV::Float(_)
        | FormV::Str(_) | FormV::Keyword(_) => true,
        _ => false,
    }
}

/// `Some(x)` when `f` is a list `(clojure.core/head x ...)`.
pub open spec fn unquoted_by(f: FormV, head: Seq<char>) -> Option<FormV> {
    match core_form(f) {
        FormV::List(items) => if items.len() >= 2 && core_form(items[0]) == cc(head) {
            Some(items[1])
        } else {
            None
        },
        _ => None,
    }
}

/// `s` without its trailing `#` characters.
pub open spec fn trim_hashes(s: Seq<char>) -> Seq<char>
    decreases s.len(),
{
    if s.len() > 0 && s.last() == '#' {
        trim_hashes(s.drop_last())
    } else {
        s
    }
}

/// Names that syntax-quote leaves unqualified: `/`, member access
/// (`.foo`), dotted class or module names, and the special forms.
pub open spec fn is_special_form(name: Seq<char>) -> bool {
    ||| name == "/"@
    ||| name.len() > 0 && name[0] == '.'
    ||| name.contains('.') && name != ".."@
    ||| name == "quote"@
    ||| name == "if"@
    ||| name == "do"@
    ||| name == "let*"@
    ||| name == "loop*"@
    ||| name == "letfn*"@
    ||| name == "recur"@
    ||| name == "var"@
    ||| name == "fn*"@
    ||| name == "def"@
    ||| name == "set!"@
    ||| name == "throw"@
    ||| name == "try"@
    ||| name == "catch"@
    ||| name == "finally"@
    ||| name == "new"@
    ||| name == "&"@
}

/// The name of auto-gensym number `id` for base name `base`.
pub open spec fn gensym_name(base: Seq<char>, id: u64) -> Seq<char> {
    base + "__"@ + decimal(id as nat) + "__auto__"@
}

/// The gensym number after `id` (wrapping around).
pub open spec fn next_id(id: u64) -> u64 {
    if id == u64::MAX {
        0
    } else {
        (id + 1) as u64
    }
}

/// Syntax-quote of a symbol `s`; `whole` is the symbol as read (with any
/// metadata). `name#` becomes the auto-gensym for `name`, made on its first
/// use; a qualified or special symbol is quoted as it is; any other is
/// qualified by the namespace of the Var it refers to, else by the current
/// namespace.
pub open spec fn sq_symbol(s: SymV, whole: FormV, ctx: ReaderContext, st: SqState) -> SqOut<FormV> {
    if s.ns is None && s.name.len() > 1 && s.name.last() == '#' {
        let base = trim_hashes(s.name);
        match assoc_get(st.gensyms, base) {
            Some(g) => SqOut::Done(quoted(sym_v(g)), st),
            None => {
                let g = gensym_name(base, st.next);
                SqOut::Done(
                    quoted(sym_v(g)),
                    SqState { gensyms: st.gensyms.push((base, g)), next: next_id(st.next) },
                )
            },
        }
    } else if s.ns is Some || is_special_form(s.name) {
        SqOut::Done(quoted(whole), st)
    } else {
        let home = match ctx.spec_var_home(s.name) {
            Some(h) => h,
            None => ctx.spec_ns_name(),
        };
        SqOut::Done(quoted(qsym_v(home, s.name)), st)
    }
}

/// `x` put in front of the forms of an outcome.
pub open spec fn prepend(x: FormV, out: SqOut<Seq<FormV>>) -> SqOut<Seq<FormV>> {
    match out {
        SqOut::Done(fs, st) => SqOut::Done(seq![x] + fs, st),
        SqOut::Splice(n) => SqOut::Splice(n),
    }
}

/// `acc` put in front of the forms of an outcome.
pub open spec fn prepend_all(acc: Seq<FormV>, out: SqOut<Seq<FormV>>) -> SqOut<Seq<FormV>> {
    match out {
        SqOut::Done(fs, st) => SqOut::Done(acc + fs, st),
        SqOut::Splice(n) => SqOut::Splice(n),
    }
}

/// `(clojure.core/apply clojure.core/builder (clojure.core/concat frags...))`.
pub open spec fn seq_form(out: SqOut<Seq<FormV>>, builder: Seq<char>) -> SqOut<FormV> {
    match out {
        SqOut::Done(frags, st) => SqOut::Done(
            FormV::List(seq![cc("apply"@), cc(builder), FormV::List(seq![cc("concat"@)] + frags)]),
            st,
        ),
        SqOut::Splice(n) => SqOut::Splice(n),
    }
}

/// `(clojure.core/hash-map k1 v1 ...)`.
pub open spec fn map_form(out: SqOut<Seq<FormV>>) -> SqOut<FormV> {
    match out {
        SqOut::Done(kvs, st) => SqOut::Done(FormV::List(seq![cc("hash-map"@)] + kvs), st),
        SqOut::Splice(n) => SqOut::Splice(n),
    }
}

/// Syntax-quote of `f` in state `st`.
pub open spec fn sq(f: FormV, ctx: ReaderContext, st: SqState) -> SqOut<FormV>
    decreases f,
{
    if self_evaluating(f) {
        SqOut::Done(f, st)
    } else if unquoted_by(f, "unquote"@) is Some {
        SqOut::Done(unquoted_by(f, "unquote"@)->0, st)
    } else if unquoted_by(f, "unquote-splicing"@) is Some {
        SqOut::Splice(st)
    } else {
        match f {
            FormV::Symbol(s) => sq_symbol(s, f, ctx, st),
            FormV::List(items) => if items.len() == 0 {
                SqOut::Done(FormV::List(seq![cc("list"@)]), st)
            } else {
                seq_form(sq_frags(items, ctx, st), "list"@)
            },
            FormV::Vector(items) => seq_form(sq_frags(items, ctx, st), "vector"@),
            FormV::ArrayMap(items) => map_form(sq_each(items, ctx, st)),
            FormV::HashSet(items) => seq_form(sq_frags(items, ctx, st), "hash-set"@),
            FormV::Meta(_, t) => match *t {
                FormV::Symbol(s) => sq_symbol(s, f, ctx, st),
                _ => sq(*t, ctx, st),
            },
            _ => SqOut::Done(quoted(f), st),
        }
    }
}

/// The fragments of a syntax-quoted sequence, left to right: `~@xs` gives
/// `xs`, any other item `x` gives `(clojure.core/list x')` where `x'` is its
/// syntax-quote.
pub open spec fn sq_frags(items: Seq<FormV>, ctx: ReaderContext, st: SqState) -> SqOut<Seq<FormV>>
    decreases items,
{
    if items.len() == 0 {
        SqOut::Done(Seq::empty(), st)
    } else {
        let rest = items.subrange(1, items.len() as int);
        match unquoted_by(items[0], "unquote-splicing"@) {
            Some(inner) => prepend(inner, sq_frags(rest, ctx, st)),
            None => match sq(items[0], ctx, st) {
                SqOut::Done(p, st1) => prepend(
                    FormV::List(seq![cc("list"@), p]),
                    sq_frags(rest, ctx, st1),
                ),
                SqOut::Splice(n) => SqOut::Splice(n),
            },
        }
    }
}

/// Syntax-quote of each item, left to right.
pub open spec fn sq_each(items: Seq<FormV>, ctx: ReaderContext, st: SqState) -> SqOut<Seq<FormV>>
    decreases items,
{
    if items.len() == 0 {
        SqOut::Done(Seq::empty(), st)
    } else {
        let rest = items.subrange(1, items.len() as int);
        match sq(items[0], ctx, st) {
            SqOut::Done(p, st1) => prepend(p, sq_each(rest, ctx, st1)),
            SqOut::Splice(n) => SqOut::Splice(n),
        }
    }
}

/// The state held in a gensym table and counter.
pub open spec fn sq_state(gensyms: Seq<(String, String)>, next: u64) -> SqState {
    SqState { gensyms: pairs_view(gensyms), next }
}

/// The error syntax-quote reports for `~@` outside a collection.
pub open spec fn is_splice_error(e: ReadError) -> bool {
    e.kind@ == ReadErrorKindV::SpliceNotInList && e.line == 0 && e.column == 0
}

/// The next auto-gensym number: returns `counter` and advances it.
pub fn gensym_id(counter: &mut u64) -> (id: u64)
    ensures
        id == *old(counter),
        *final(counter) == next_id(*old(counter)),
{
    let id = *counter;
    *counter = if id == u64::MAX {
        0
    } else {
        id + 1
    };
    id
}

fn trim_hashes_exec(v: &Vec<char>) -> (r: Vec<char>)
    ensures
        r@ == trim_hashes(v@),
{
    let mut j = v.len();
    assert(v@.take(j as int) =~= v@);
    while j > 0 && v[j - 1] == '#'
        invariant
            j <= v@.len(),
            trim_hashes(v@) == trim_hashes(v@.take(j as int)),
        decreases j,
    {
        assert(v@.take(j as int).drop_last() =~= v@.take(j - 1));
        j = j - 1;
    }
    let r = sub_chars(v, 0, j);
    assert(r@ =~= v@.take(j as int));
    r
}

fn is_special_form_exec(name: &Vec<char>) -> (r: bool)
    ensures
        r == is_special_form(name@),
{
    if chars_eq_str(name, "/") {
        return true;
    }
    if name.len() > 0 && name[0] == '.' {
        return true;
    }
    if contains_char(name, '.') && !chars_eq_str(name, "..") {
        return true;
    }
    chars_eq_str(name, "quote") || chars_eq_str(name, "if") || chars_eq_str(name, "do")
        || chars_eq_str(name, "let*") || chars_eq_str(name, "loop*") || chars_eq_str(name, "letfn*")
        || chars_eq_str(name, "recur") || chars_eq_str(name, "var") || chars_eq_str(name, "fn*")
        || chars_eq_str(name, "def") || chars_eq_str(name, "set!") || chars_eq_str(name, "throw")
        || chars_eq_str(name, "try") || chars_eq_str(name, "catch") || chars_eq_str(name, "finally")
        || chars_eq_str(name, "new") || chars_eq_str(name, "&")
}

fn quoted_exec(f: Form) -> (r: Form)
    ensures
        r@ == quoted(f@),
{
    mk_list2(mk_sym("quote"), f)
}

fn gensym_name_exec(base: &Vec<char>, id: u64) -> (r: String)
    ensures
        r@ == gensym_name(base@, id),
{
    let mut s = chars_to_string(base);
    push_str(&mut s, "__");
    push_u64_decimal(&mut s, id);
    push_str(&mut s, "__auto__");
    s
}

/// [`sq_symbol`]: syntax-quote of the symbol `s`, read as `whole`.
fn sq_symbol_exec(
    s: &Sym,
    whole: &Form,
    ctx: &ReaderContext,
    gensyms: &mut Vec<(String, String)>,
    next: &mut u64,
) -> (r: Form)
    ensures
        match sq_symbol(s@, whole@, *ctx, sq_state(old(gensyms)@, *old(next))) {
            SqOut::Done(g, st) => r@ == g && sq_state(final(gensyms)@, *final(next)) == st,
            SqOut::Splice(_) => false,
        },
{
    let name = string_to_chars(s.name.as_str());
    if s.ns.is_none() && name.len() > 1 && name[name.len() - 1] == '#' {
        let base = trim_hashes_exec(&name);
        let base_s = chars_to_string(&base);
        match lookup_pair(gensyms, &base_s) {
            Some(g) => {
                return quoted_exec(Form::Symbol(Sym { ns: None, name: g }));
            },
            None => {
                let id = gensym_id(next);
                let g = gensym_name_exec(&base, id);
                let g2 = chars_to_string(&string_to_chars(g.as_str()));
                let ghost before = gensyms@;
                gensyms.push((base_s, g));
                assert(pairs_view(gensyms@) =~= pairs_view(before).push((base@, g2@)));
                return quoted_exec(Form::Symbol(Sym { ns: None, name: g2 }));
            },
        }
    }
    if s.ns.is_some() || is_special_form_exec(&name) {
        return quoted_exec(copy_form(whole));
    }
    let home = match lookup_pair(&ctx.var_homes, &s.name) {
        Some(h) => h,
        None => ctx.ns_name.clone(),
    };
    quoted_exec(Form::Symbol(Sym { ns: Some(home), name: s.name.clone() }))
}

/// [`unquoted_by`]: a copy of `x` when `f` is `(clojure.core/head x ...)`.
fn unquoted_by_exec(f: &Form, head: &str) -> (r: Option<Form>)
    ensures
        match unquoted_by(f@, head@) {
            Some(x) => r matches Some(g) && g@ == x,
            None => r is None,
        },
{
    proof {
        reveal_with_fuel(form_view, 2);
    }
    let core: &Form = match f {
        Form::Meta(_, t) => &**t,
        other => other,
    };
    match core {
        Form::List(items) => {
            proof {
                lemma_forms_view(items@);
                reveal_with_fuel(form_view, 2);
            }
            if items.len() < 2 {
                return None;
            }
            let h: &Form = match &items[0] {
                Form::Meta(_, t) => &**t,
                other => other,
            };
            let is_head = match h {
                Form::Symbol(s) => match &s.ns {
                    Some(ns) => string_eq_str(ns, "clojure.core") && string_eq_str(&s.name, head),
                    None => false,
                },
                _ => false,
            };
            if is_head {
                Some(copy_form(&items[1]))
            } else {
                None
            }
        },
        _ => None,
    }
}

fn self_evaluating_exec(f: &Form) -> (r: bool)
    ensures
        r == self_evaluating(f@),
{
    match f {
        Form::Nil | Form::Bool(_) | Form::Int(_) | Form::BigInt(_) | Form::Float(_) | Form::Str(_)
        | Form::Keyword(_) => true,
        _ => false,
    }
}

fn splice_error() -> (e: ReadError)
    ensures
        is_splice_error(e),
{
    ReadError { kind: ReadErrorKind::SpliceNotInList, line: 0, column: 0 }
}

fn list3(a: Form, b: Form, c: Form) -> (f: Form)
    ensures
        f@ == FormV::List(seq![a@, b@, c@]),
{
    let mut v: Vec<Form> = Vec::new();
    proof {
        lemma_forms_view_push(v@, a);
    }
    v.push(a);
    proof {
        lemma_forms_view_push(v@, b);
    }
    v.push(b);
    proof {
        lemma_forms_view_push(v@, c);
    }
    v.push(c);
    assert(forms_view(v@) =~= seq![a@, b@, c@]) by {
        assert(forms_view(Seq::<Form>::empty()) =~= Seq::<FormV>::empty());
    }
    Form::List(v)
}

/// `head` followed by the forms of `rest`, as a list.
fn cons_list(head: Form, rest: Vec<Form>) -> (f: Form)
    ensures
        f@ == FormV::List(seq![head@] + forms_view(rest@)),
{
    let mut v: Vec<Form> = Vec::new();
    proof {
        lemma_forms_view_push(v@, head);
    }
    v.push(head);
    let mut i: usize = 0;
    proof {
        lemma_forms_view(rest@);
    }
    assert(forms_view(v@) =~= seq![head@] + forms_view(rest@).take(0)) by {
        assert(forms_view(Seq::<Form>::empty()) =~= Seq::<FormV>::empty());
    }
    while i < rest.len()
        invariant
            i <= rest@.len(),
            forms_view(rest@).len() == rest@.len(),
            forall|j: int| 0 <= j < rest@.len() ==> #[trigger] forms_view(rest@)[j] == form_view(rest@[j]),
            forms_view(v@) == seq![head@] + forms_view(rest@).take(i as int),
        decreases rest@.len() - i,
    {
        let f = copy_form(&rest[i]);
        proof {
            lemma_forms_view_push(v@, f);
        }
        v.push(f);
        assert(forms_view(rest@).take(i + 1) =~= forms_view(rest@).take(i as int).push(forms_view(rest@)[i as int]));
        i = i + 1;
    }
    assert(forms_view(rest@).take(i as int) =~= forms_view(rest@));
    Form::List(v)
}

fn seq_form_exec(frags: Vec<Form>, builder: &str) -> (f: Form)
    ensures
        f@ == FormV::List(seq![cc("apply"@), cc(builder@), FormV::List(seq![cc("concat"@)] + forms_view(frags@))]),
{
    let concat = cons_list(mk_qsym("clojure.core", "concat"), frags);
    list3(mk_qsym("clojure.core", "apply"), mk_qsym("clojure.core", builder), concat)
}

proof fn lemma_prepend_all(acc: Seq<FormV>, x: FormV, out: SqOut<Seq<FormV>>)
    ensures
        prepend_all(acc, prepend(x, out)) == prepend_all(acc.push(x), out),
{
    match out {
        SqOut::Done(fs, st) => {
            assert(acc + (seq![x] + fs) =~= acc.push(x) + fs);
        },
        SqOut::Splice(_) => {},
    }
}

/// [`sq`]: the syntax-quote of `f`, with the gensym table and counter
/// carried through.
pub fn syntax_quote(
    f: &Form,
    ctx: &ReaderContext,
    gensyms: &mut Vec<(String, String)>,
    next: &mut u64,
) -> (r: Result<Form, ReadError>)
    ensures
        match sq(f@, *ctx, sq_state(old(gensyms)@, *old(next))) {
            SqOut::Done(g, st) => r matches Ok(v) && v@ == g && sq_state(final(gensyms)@, *final(next)) == st,
            SqOut::Splice(st) => r matches Err(e) && is_splice_error(e) && sq_state(final(gensyms)@, *final(next)) == st,
        },
    decreases f,
{
    proof {
        reveal_with_fuel(form_view, 2);
    }
    if self_evaluating_exec(f) {
        return Ok(copy_form(f));
    }
    match unquoted_by_exec(f, "unquote") {
        Some(x) => {
            return Ok(x);
        },
        None => {},
    }
    match unquoted_by_exec(f, "unquote-splicing") {
        Some(_) => {
            return Err(splice_error());
        },
        None => {},
    }
    match f {
        Form::Symbol(s) => Ok(sq_symbol_exec(s, f, ctx, gensyms, next)),
        Form::List(items) => {
            proof {
                lemma_forms_view(items@);
            }
            if items.len() == 0 {
                let mut v: Vec<Form> = Vec::new();
                let h = mk_qsym("clojure.core", "list");
                proof {
                    lemma_forms_view_push(v@, h);
                }
                v.push(h);
                assert(forms_view(v@) =~= seq![cc("list"@)]) by {
                    assert(forms_view(Seq::<Form>::empty()) =~= Seq::<FormV>::empty());
                }
                Ok(Form::List(v))
            } else {
                match sq_frags_exec(items, ctx, gensyms, next) {
                    Ok(frags) => Ok(seq_form_exec(frags, "list")),
                    Err(e) => Err(e),
                }
            }
        },
        Form::Vector(items) => match sq_frags_exec(items, ctx, gensyms, next) {
            Ok(frags) => Ok(seq_form_exec(frags, "vector")),
            Err(e) => Err(e),
        },
        Form::HashSet(items) => match sq_frags_exec(items, ctx, gensyms, next) {
            Ok(frags) => Ok(seq_form_exec(frags, "hash-set")),
            Err(e) => Err(e),
        },
        Form::ArrayMap(items) => match sq_each_exec(items, ctx, gensyms, next) {
            Ok(kvs) => Ok(cons_list(mk_qsym("clojure.core", "hash-map"), kvs)),
            Err(e) => Err(e),
        },
        Form::Meta(_, t) => match &**t {
            Form::Symbol(s) => Ok(sq_symbol_exec(s, f, ctx, gensyms, next)),
            _ => syntax_quote(t, ctx, gensyms, next),
        },
        _ => Ok(quoted_exec(copy_form(f))),
    }
}

/// [`sq_frags`] of the forms of `items`.
fn sq_frags_exec(
    items: &Vec<Form>,
    ctx: &ReaderContext,
    gensyms: &mut Vec<(String, String)>,
    next: &mut u64,
) -> (r: Result<Vec<Form>, ReadError>)
    ensures
        match sq_frags(forms_view(items@), *ctx, sq_state(old(gensyms)@, *old(next))) {
            SqOut::Done(fs, st) => r matches Ok(v) && forms_view(v@) == fs && sq_state(
                final(gensyms)@,
                *final(next),
            ) == st,
            SqOut::Splice(st) => r matches Err(e) && is_splice_error(e) && sq_state(final(gensyms)@, *final(next)) == st,
        },
    decreases items,
{
    proof {
        lemma_forms_view(items@);
    }
    let ghost s = forms_view(items@);
    let ghost st0 = sq_state(gensyms@, *next);
    let mut out: Vec<Form> = Vec::new();
    let mut i: usize = 0;
    assert(s.subrange(0, s.len() as int) =~= s);
    assert(forms_view(out@) =~= Seq::<FormV>::empty());
    assert(prepend_all(Seq::empty(), sq_frags(s, *ctx, st0)) == sq_frags(s, *ctx, st0)) by {
        match sq_frags(s, *ctx, st0) {
            SqOut::Done(fs, _) => {
                assert(Seq::<FormV>::empty() + fs =~= fs);
            },
            _ => {},
        }
    }
    while i < items.len()
        invariant
            i <= items@.len(),
            s == forms_view(items@),
            s.len() == items@.len(),
            forall|j: int| 0 <= j < items@.len() ==> #[trigger] s[j] == form_view(items@[j]),
            st0 == sq_state(old(gensyms)@, *old(next)),
            sq_frags(s, *ctx, st0) == prepend_all(
                forms_view(out@),
                sq_frags(s.subrange(i as int, s.len() as int), *ctx, sq_state(gensyms@, *next)),
            ),
        decreases items@.len() - i,
    {
        let ghost t = s.subrange(i as int, s.len() as int);
        let ghost st = sq_state(gensyms@, *next);
        assert(t[0] == s[i as int]);
        assert(t.subrange(1, t.len() as int) =~= s.subrange(i + 1, s.len() as int));
        match unquoted_by_exec(&items[i], "unquote-splicing") {
            Some(inner) => {
                proof {
                    lemma_prepend_all(forms_view(out@), inner@, sq_frags(s.subrange(i + 1, s.len() as int), *ctx, st));
                    lemma_forms_view_push(out@, inner);
                }
                out.push(inner);
            },
            None => {
                match syntax_quote(&items[i], ctx, gensyms, next) {
                    Ok(p) => {
                        let frag = mk_list2(mk_qsym("clojure.core", "list"), p);
                        proof {
                            lemma_prepend_all(
                                forms_view(out@),
                                frag@,
                                sq_frags(s.subrange(i + 1, s.len() as int), *ctx, sq_state(gensyms@, *next)),
                            );
                            lemma_forms_view_push(out@, frag);
                        }
                        out.push(frag);
                    },
                    Err(e) => {
                        return Err(e);
                    },
                }
            },
        }
        i = i + 1;
    }
    assert(s.subrange(i as int, s.len() as int) =~= Seq::<FormV>::empty());
    assert(forms_view(out@) + Seq::<FormV>::empty() =~= forms_view(out@));
    Ok(out)
}

/// [`sq_each`] of the forms of `items`.
fn sq_each_exec(
    items: &Vec<Form>,
    ctx: &ReaderContext,
    gensyms: &mut Vec<(String, String)>,
    next: &mut u64,
) -> (r: Result<Vec<Form>, ReadError>)
    ensures
        match sq_each(forms_view(items@), *ctx, sq_state(old(gensyms)@, *old(next))) {
            SqOut::Done(fs, st) => r matches Ok(v) && forms_view(v@) == fs && sq_state(
                final(gensyms)@,
                *final(next),
            ) == st,
            SqOut::Splice(st) => r matches Err(e) && is_splice_error(e) && sq_state(final(gensyms)@, *final(next)) == st,
        },
    decreases items,
{
    proof {
        lemma_forms_view(items@);
    }
    let ghost s = forms_view(items@);
    let ghost st0 = sq_state(gensyms@, *next);
    let mut out: Vec<Form> = Vec::new();
    let mut i: usize = 0;
    assert(s.subrange(0, s.len() as int) =~= s);
    assert(forms_view(out@) =~= Seq::<FormV>::empty());
    assert(prepend_all(Seq::empty(), sq_each(s, *ctx, st0)) == sq_each(s, *ctx, st0)) by {
        match sq_each(s, *ctx, st0) {
            SqOut::Done(fs, _) => {
                assert(Seq::<FormV>::empty() + fs =~= fs);
            },
            _ => {},
        }
    }
    while i < items.len()
        invariant
            i <= items@.len(),
            s == forms_view(items@),
            s.len() == items@.len(),
            forall|j: int| 0 <= j < items@.len() ==> #[trigger] s[j] == form_view(items@[j]),
            st0 == sq_state(old(gensyms)@, *old(next)),
            sq_each(s, *ctx, st0) == prepend_all(
                forms_view(out@),
                sq_each(s.subrange(i as int, s.len() as int), *ctx, sq_state(gensyms@, *next)),
            ),
        decreases items@.len() - i,
    {
        let ghost t = s.subrange(i as int, s.len() as int);
        assert(t[0] == s[i as int]);
        assert(t.subrange(1, t.len() as int) =~= s.subrange(i + 1, s.len() as int));
        match syntax_quote(&items[i], ctx, gensyms, next) {
            Ok(p) => {
                proof {
                    lemma_prepend_all(
                        forms_view(out@),
                        p@,
                        sq_each(s.subrange(i + 1, s.len() as int), *ctx, sq_state(gensyms@, *next)),
                    );
                    lemma_forms_view_push(out@, p);
                }
                out.push(p);
            },
            Err(e) => {
                return Err(e);
            },
        }
        i = i + 1;
    }
    assert(s.subrange(i as int, s.len() as int) =~= Seq::<FormV>::empty());
    assert(forms_view(out@) + Seq::<FormV>::empty() =~= forms_view(out@));
    Ok(out)
}

/// `` `form ``: read `form` and syntax-quote it, starting with no
/// auto-gensyms; `next` is the gensym counter. The next character is the
/// backtick.
pub fn syntax_quote_reader(src: &mut Source, ctx: &ReaderContext, next: &mut u64) -> (r: Result<
    Form,
    ReadError,
>)
    requires
        old(src).wf(),
        old(src).has_room(),
        old(src).rest().len() > 0,
        old(src).rest()[0] == '`',
    ensures
        final(src).wf(),
        final(src).has_room(),
        match scan_shift(read_one_scan(old(src).rest().drop_first(), *ctx), 1) {
            Scan::Done(f, k) => *final(src) == old(src).advanced(k) && match sq(
                f,
                *ctx,
                SqState { gensyms: Seq::empty(), next: *old(next) },
            ) {
                SqOut::Done(g, st) => r matches Ok(v) && v@ == g && *final(next) == st.next,
                SqOut::Splice(st) => r matches Err(e) && is_splice_error(e) && *final(next) == st.next,
            },
            Scan::Fail(e, p, k) => form_outcome(*old(src), *final(src), r, Scan::Fail(e, p, k))
                && *final(next) == *old(next),
        },
{
    let ghost s0 = *src;
    proof {
        s0.lemma_step();
        s0.lemma_advanced(1);
        assert(s0.advanced(0) == s0);
    }
    src.advance();
    let r = read_one(src, ctx);
    proof {
        lemma_outcome_shift(s0, 1, *src, r, read_one_scan(s0.rest().drop_first(), *ctx));
    }
    let inner = match r {
        Ok(f) => f,
        Err(e) => {
            return Err(e);
        },
    };
    let mut gensyms: Vec<(String, String)> = Vec::new();
    assert(pairs_view(gensyms@) =~= Seq::<(Seq<char>, Seq<char>)>::empty());
    syntax_quote(&inner, ctx, &mut gensyms, next)
}

proof fn lemma_assoc_get_push(s: Seq<(Seq<char>, Seq<char>)>, k: Seq<char>, v: Seq<char>)
    requires
        assoc_get(s, k) is None,
    ensures
        assoc_get(s.push((k, v)), k) == Some(v),
    decreases s.len(),
{
    if s.len() > 0 {
        assert(s.push((k, v)).drop_first() =~= s.drop_first().push((k, v)));
        lemma_assoc_get_push(s.drop_first(), k, v);
    } else {
        assert(s.push((k, v))[0] == (k, v));
    }
}

/// The special forms of the language, with `&` of parameter vectors.
pub open spec fn special_form_names() -> Seq<Seq<char>> {
    seq![
        "quote"@, "if"@, "do"@, "let*"@, "loop*"@, "letfn*"@, "recur"@, "var"@, "fn*"@,
        "def"@, "set!"@, "throw"@, "try"@, "catch"@, "finally"@, "new"@, "&"@,
    ]
}

proof fn lemma_special_form_names()
    ensures
        forall|i: int|
            #![trigger special_form_names()[i]]
            0 <= i < special_form_names().len() ==> {
                let n = special_form_names()[i];
                &&& n.len() > 0
                &&& n.last() != '#'
                &&& is_special_form(n)
            },
{
    reveal_strlit("quote");
    reveal_strlit("if");
    reveal_strlit("do");
    reveal_strlit("let*");
    reveal_strlit("loop*");
    reveal_strlit("letfn*");
    reveal_strlit("recur");
    reveal_strlit("var");
    reveal_strlit("fn*");
    reveal_strlit("def");
    reveal_strlit("set!");
    reveal_strlit("throw");
    reveal_strlit("try");
    reveal_strlit("catch");
    reveal_strlit("finally");
    reveal_strlit("new");
    reveal_strlit("&");
}

/// Syntax-quote leaves a special-form symbol unqualified: `` `n `` for each
/// special form `n` is `(quote n)`, whatever the namespace and the state.
pub proof fn law_special_forms_stay_unqualified(n: Seq<char>, ctx: ReaderContext, st: SqState)
    requires
        special_form_names().contains(n),
    ensures
        ({
            let f = FormV::Symbol(SymV { ns: None, name: n });
            sq(f, ctx, st) == SqOut::Done(FormV::List(seq![sym_v("quote"@), f]), st)
        }),
{
    lemma_special_form_names();
    let i = choose|i: int| 0 <= i < special_form_names().len() && special_form_names()[i] == n;
    assert(special_form_names()[i] == n);
}

/// Syntax-quote qualifies every other plain symbol: one that is no special
/// form, not `/`, holds no `.` and does not end in `#` becomes
/// `(quote home/n)`, where `home` is the namespace of the Var that `n`
/// names, else the current namespace.
pub proof fn law_plain_symbols_qualified(n: Seq<char>, ctx: ReaderContext, st: SqState)
    requires
        !special_form_names().contains(n),
        n != "/"@,
        !n.contains('.'),
        n.len() == 0 || n.last() != '#',
    ensures
        ({
            let f = FormV::Symbol(SymV { ns: None, name: n });
            let home = match ctx.spec_var_home(n) {
                Some(h) => h,
                None => ctx.spec_ns_name(),
            };
            sq(f, ctx, st) == SqOut::Done(
                FormV::List(seq![sym_v("quote"@), FormV::Symbol(SymV { ns: Some(home), name: n })]),
                st,
            )
        }),
{
    let names = special_form_names();
    assert(names[0] == "quote"@);
    assert(names[1] == "if"@);
    assert(names[2] == "do"@);
    assert(names[3] == "let*"@);
    assert(names[4] == "loop*"@);
    assert(names[5] == "letfn*"@);
    assert(names[6] == "recur"@);
    assert(names[7] == "var"@);
    assert(names[8] == "fn*"@);
    assert(names[9] == "def"@);
    assert(names[10] == "set!"@);
    assert(names[11] == "throw"@);
    assert(names[12] == "try"@);
    assert(names[13] == "catch"@);
    assert(names[14] == "finally"@);
    assert(names[15] == "new"@);
    assert(names[16] == "&"@);
    assert(!is_special_form(n));
}

/// Within one syntax-quoted form an auto-gensym base name stands for one
/// generated symbol: once `name#` has been quoted, quoting it (or another
/// symbol with the same base, such as `name##`) again gives the same
/// symbol and leaves the state as it is.
pub proof fn law_gensym_reused(
    s: SymV,
    t: SymV,
    w1: FormV,
    w2: FormV,
    ctx: ReaderContext,
    st: SqState,
)
    requires
        s.ns is None,
        s.name.len() > 1,
        s.name.last() == '#',
        t.ns is None,
        t.name.len() > 1,
        t.name.last() == '#',
        trim_hashes(s.name) == trim_hashes(t.name),
    ensures
        sq_symbol(s, w1, ctx, st) matches SqOut::Done(g, st1) && sq_symbol(t, w2, ctx, st1)
            == SqOut::Done(g, st1),
{
    let base = trim_hashes(s.name);
    match assoc_get(st.gensyms, base) {
        Some(g) => {},
        None => {
            lemma_assoc_get_push(st.gensyms, base, gensym_name(base, st.next));
        },
    }
}

} // verus!
