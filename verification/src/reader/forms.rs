//! Reader macros and collection readers: quote, deref, var-quote, metadata,
//! discard, lists, vectors, maps, sets, regex literals and unquote.

use vstd::prelude::*;
use crate::reader::context::ReaderContext;
use crate::reader::dispatch::{datum_scan, lemma_datum_scan_progress, lemma_outcome_shift, lemma_skip_len_bounds, read_one, read_one_scan, skip_len, skip_ws_and_comments};
use crate::reader::errors::{Coll, ReadError, ReadErrorKind, ReadErrorKindV, Scan, form_outcome, scan_shift, scan_within};
use crate::reader::form::{Form, FormV, Sym, SymV, form_view, forms_equal_one, forms_view, lemma_forms_view, lemma_forms_view_push, qsym_v, sym_v};
use crate::reader::source::Source;
use crate::text::{chars_to_string, string_to_chars};

verus! {

/// A symbol with no namespace, named `name`.
pub fn mk_sym(name: &str) -> (f: Form)
    ensures
        f@ == sym_v(name@),
{
    Form::Symbol(Sym { ns: None, name: chars_to_string(&string_to_chars(name)) })
}

/// A namespace-qualified symbol.
pub fn mk_qsym(ns: &str, name: &str) -> (f: Form)
    ensures
        f@ == qsym_v(ns@, name@),
{
    Form::Symbol(
        Sym {
            ns: Some(chars_to_string(&string_to_chars(ns))),
            name: chars_to_string(&string_to_chars(name)),
        },
    )
}

/// The list `(a b)`.
pub fn mk_list2(a: Form, b: Form) -> (f: Form)
    ensures
        f@ == FormV::List(seq![a@, b@]),
{
    let mut v: Vec<Form> = Vec::new();
    proof {
        lemma_forms_view_push(v@, a);
    }
    v.push(a);
    proof {
        lemma_forms_view_push(v@, b);
    }
    v.push(b);
    assert(forms_view(v@) =~= seq![a@, b@]) by {
        assert(forms_view(Seq::<Form>::empty()) =~= Seq::<FormV>::empty());
    }
    Form::List(v)
}

/// A scan whose datum `f` is wrapped as `(head f)`.
pub open spec fn scan_wrap(sc: Scan, head: FormV) -> Scan {
    match sc {
        Scan::Done(f, k) => Scan::Done(FormV::List(seq![head, f]), k),
        other => other,
    }
}

/// What a one-character reader macro does: skip its lead character and
/// read the next datum, wrapping it as `(head datum)`.
pub open spec fn wrap_scan(s: Seq<char>, ctx: ReaderContext, head: FormV) -> Scan {
    scan_wrap(scan_shift(read_one_scan(s.drop_first(), ctx), 1), head)
}

fn wrap_next_form(src: &mut Source, ctx: &ReaderContext, head: Form) -> (r: Result<Form, ReadError>)
    requires
        old(src).wf(),
        old(src).has_room(),
        old(src).rest().len() > 0,
    ensures
        form_outcome(*old(src), *final(src), r, wrap_scan(old(src).rest(), *ctx, head@)),
        scan_within(wrap_scan(old(src).rest(), *ctx, head@), old(src).rest().len()),
        final(src).wf(),
        final(src).has_room(),
{
    let ghost s0 = *src;
    proof {
        s0.lemma_step();
        s0.lemma_advanced(1);
        assert(s0.advanced(0) == s0);
    }
    src.advance();
    let r = read_one(src, ctx);
    proof {
        lemma_outcome_shift(s0, 1, *src, r, read_one_scan(s0.rest().drop_first(), *ctx));
    }
    match r {
        Ok(f) => Ok(mk_list2(head, f)),
        Err(e) => Err(e),
    }
}

/// `'form` reads as `(quote form)`; the next character is the `'`.
pub fn quote_reader(src: &mut Source, ctx: &ReaderContext) -> (r: Result<Form, ReadError>)
    requires
        old(src).wf(),
        old(src).has_room(),
        old(src).rest().len() > 0,
        old(src).rest()[0] == '\'',
    ensures
        form_outcome(*old(src), *final(src), r, wrap_scan(old(src).rest(), *ctx, sym_v("quote"@))),
        final(src).wf(),
        final(src).has_room(),
{
    wrap_next_form(src, ctx, mk_sym("quote"))
}

/// `@form` reads as `(clojure.core/deref form)`; the next character is the `@`.
pub fn deref_reader(src: &mut Source, ctx: &ReaderContext) -> (r: Result<Form, ReadError>)
    requires
        old(src).wf(),
        old(src).has_room(),
        old(src).rest().len() > 0,
        old(src).rest()[0] == '@',
    ensures
        form_outcome(
            *old(src),
            *final(src),
            r,
            wrap_scan(old(src).rest(), *ctx, qsym_v("clojure.core"@, "deref"@)),
        ),
        final(src).wf(),
        final(src).has_room(),
{
    wrap_next_form(src, ctx, mk_qsym("clojure.core", "deref"))
}

/// `#'sym` reads as `(var sym)`; the `#` is consumed and the next
/// character is the `'`.
pub fn var_quote_reader(src: &mut Source, ctx: &ReaderContext) -> (r: Result<Form, ReadError>)
    requires
        old(src).wf(),
        old(src).has_room(),
        old(src).rest().len() > 0,
        old(src).rest()[0] == '\'',
    ensures
        form_outcome(*old(src), *final(src), r, wrap_scan(old(src).rest(), *ctx, sym_v("var"@))),
        final(src).wf(),
        final(src).has_room(),
{
    wrap_next_form(src, ctx, mk_sym("var"))
}

/// The datum itself, looking through attached metadata.
pub open spec fn core_form(f: FormV) -> FormV {
    match f {
        FormV::Meta(_, t) => *t,
        _ => f,
    }
}

/// Data that can carry metadata: symbols and collections.
pub open spec fn carries_meta(f: FormV) -> bool {
    match f {
        FormV::Symbol(_) | FormV::List(_) | FormV::Vector(_) | FormV::ArrayMap(_) | FormV::HashSet(
            _,
        ) => true,
        _ => false,
    }
}

/// Metadata as written, made a map: a map stays as it is, a keyword `k`
/// becomes `{k true}`, a string or symbol `t` becomes `{:tag t}`; anything
/// else is refused.
pub open spec fn normalize_meta(m: FormV) -> Option<FormV> {
    match core_form(m) {
        FormV::ArrayMap(_) => Some(m),
        FormV::Keyword(_) => Some(FormV::ArrayMap(seq![m, FormV::Bool(true)])),
        FormV::Str(_) | FormV::Symbol(_) => Some(
            FormV::ArrayMap(seq![FormV::Keyword(SymV { ns: None, name: "tag"@ }), m]),
        ),
        _ => None,
    }
}

/// `t` with metadata `m` when it can carry metadata (replacing any it had),
/// else `t` unchanged.
pub open spec fn attach_meta(t: FormV, m: FormV) -> FormV {
    if carries_meta(core_form(t)) {
        FormV::Meta(Box::new(m), Box::new(core_form(t)))
    } else {
        t
    }
}

/// What reading `^meta target` does once the `^` is consumed.
pub open spec fn meta_scan(s: Seq<char>, ctx: ReaderContext) -> Scan {
    match read_one_scan(s, ctx) {
        Scan::Done(m, k1) => match normalize_meta(m) {
            None => Scan::Fail(ReadErrorKindV::BadMetadata, 0, k1),
            Some(mm) => match scan_shift(read_one_scan(s.skip(k1 as int), ctx), k1) {
                Scan::Done(t, k2) => Scan::Done(attach_meta(t, mm), k2),
                other => other,
            },
        },
        other => other,
    }
}

fn normalize_meta_exec(m: Form) -> (r: Option<Form>)
    ensures
        match normalize_meta(m@) {
            Some(mm) => r matches Some(f) && f@ == mm,
            None => r is None,
        },
{
    proof {
        reveal_with_fuel(form_view, 2);
    }
    let kind = match &m {
        Form::Meta(_, t) => match &**t {
            Form::ArrayMap(_) => 0u8,
            Form::Keyword(_) => 1u8,
            Form::Str(_) | Form::Symbol(_) => 2u8,
            _ => 3u8,
        },
        Form::ArrayMap(_) => 0u8,
        Form::Keyword(_) => 1u8,
        Form::Str(_) | Form::Symbol(_) => 2u8,
        _ => 3u8,
    };
    if kind == 0 {
        Some(m)
    } else if kind == 1 {
        Some(Form::ArrayMap(pair(m, Form::Bool(true))))
    } else if kind == 2 {
        let tag = Form::Keyword(Sym { ns: None, name: chars_to_string(&string_to_chars("tag")) });
        Some(Form::ArrayMap(pair(tag, m)))
    } else {
        None
    }
}

/// The two forms `a`, `b` in a vector.
pub fn pair(a: Form, b: Form) -> (v: Vec<Form>)
    ensures
        forms_view(v@) == seq![a@, b@],
{
    let mut v: Vec<Form> = Vec::new();
    proof {
        lemma_forms_view_push(v@, a);
    }
    v.push(a);
    proof {
        lemma_forms_view_push(v@, b);
    }
    v.push(b);
    assert(forms_view(v@) =~= seq![a@, b@]) by {
        assert(forms_view(Seq::<Form>::empty()) =~= Seq::<FormV>::empty());
    }
    v
}

fn attach_meta_exec(t: Form, m: Form) -> (r: Form)
    ensures
        r@ == attach_meta(t@, m@),
{
    proof {
        reveal_with_fuel(form_view, 2);
    }
    let can = match &t {
        Form::Meta(_, inner) => match &**inner {
            Form::Symbol(_) | Form::List(_) | Form::Vector(_) | Form::ArrayMap(_) | Form::HashSet(
                _,
            ) => true,
            _ => false,
        },
        Form::Symbol(_) | Form::List(_) | Form::Vector(_) | Form::ArrayMap(_) | Form::HashSet(_) => true,
        _ => false,
    };
    if can {
        let inner = match t {
            Form::Meta(_, inner) => *inner,
            other => other,
        };
        Form::Meta(Box::new(m), Box::new(inner))
    } else {
        t
    }
}

/// `^meta target`: read the metadata, then the target, and attach the
/// metadata to it. The `^` (or `#^`) is already consumed.
pub fn meta_reader(src: &mut Source, ctx: &ReaderContext) -> (r: Result<Form, ReadError>)
    requires
        old(src).wf(),
        old(src).has_room(),
    ensures
        form_outcome(*old(src), *final(src), r, meta_scan(old(src).rest(), *ctx)),
        final(src).wf(),
        final(src).has_room(),
{
    let ghost s0 = *src;
    let ghost r0 = src.rest();
    let start_line = src.line();
    let start_col = src.column();
    proof {
        s0.lemma_advanced(0);
    }
    let meta_raw = match read_one(src, ctx) {
        Ok(m) => m,
        Err(e) => {
            return Err(e);
        },
    };
    let ghost k1 = match read_one_scan(r0, *ctx) {
        Scan::Done(_, k) => k,
        Scan::Fail(_, _, k) => k,
    };
    proof {
        s0.lemma_advanced(k1);
    }
    let meta_map = match normalize_meta_exec(meta_raw) {
        Some(mm) => mm,
        None => {
            return Err(ReadError { kind: ReadErrorKind::BadMetadata, line: start_line, column: start_col });
        },
    };
    let r = read_one(src, ctx);
    proof {
        lemma_outcome_shift(s0, k1, *src, r, read_one_scan(r0.skip(k1 as int), *ctx));
    }
    match r {
        Ok(t) => Ok(attach_meta_exec(t, meta_map)),
        Err(e) => Err(e),
    }
}

/// What `#_ form next` does once `#_` is consumed: the first datum is read
/// and dropped, the next one is the result.
pub open spec fn discard_scan(s: Seq<char>, ctx: ReaderContext) -> Scan {
    match read_one_scan(s, ctx) {
        Scan::Done(_, k1) => scan_shift(read_one_scan(s.skip(k1 as int), ctx), k1),
        other => other,
    }
}

/// `#_ form next`: read `form`, drop it, read and return `next`.
pub fn discard_reader(src: &mut Source, ctx: &ReaderContext) -> (r: Result<Form, ReadError>)
    requires
        old(src).wf(),
        old(src).has_room(),
    ensures
        form_outcome(*old(src), *final(src), r, discard_scan(old(src).rest(), *ctx)),
        final(src).wf(),
        final(src).has_room(),
{
    let ghost s0 = *src;
    let ghost r0 = src.rest();
    match read_one(src, ctx) {
        Ok(_) => {},
        Err(e) => {
            return Err(e);
        },
    }
    let ghost k1 = match read_one_scan(r0, *ctx) {
        Scan::Done(_, k) => k,
        Scan::Fail(_, _, k) => k,
    };
    proof {
        s0.lemma_advanced(k1);
    }
    let r = read_one(src, ctx);
    proof {
        lemma_outcome_shift(s0, k1, *src, r, read_one_scan(r0.skip(k1 as int), *ctx));
    }
    r
}

/// A closing delimiter.
pub open spec fn is_closer(c: char) -> bool {
    c == ')' || c == ']' || c == '}'
}

/// What reading the items of a collection does with `s` from index `i`
/// (the opening delimiter is `s[0]`), `acc` holding the items read so far.
/// The datum is `List(items)`.
pub open spec fn items_scan_from(
    s: Seq<char>,
    ctx: ReaderContext,
    close: char,
    kind: Coll,
    i: nat,
    acc: Seq<FormV>,
) -> Scan
    decreases s.len() - i,
{
    let j = i + skip_len(s.skip(i as int));
    if j >= s.len() {
        Scan::Fail(ReadErrorKindV::EofInCollection(kind), 0, j)
    } else if s[j as int] == close {
        Scan::Done(FormV::List(acc), j + 1)
    } else if is_closer(s[j as int]) {
        Scan::Fail(ReadErrorKindV::UnmatchedInCollection(close, s[j as int]), j, j)
    } else {
        match datum_scan(s.skip(j as int), ctx) {
            Scan::Done(f, k) => if k > 0 && j + k <= s.len() {
                items_scan_from(s, ctx, close, kind, j + k, acc.push(f))
            } else {
                Scan::Fail(ReadErrorKindV::Eof, 0, 0)
            },
            Scan::Fail(e, p, k) => Scan::Fail(e, j + p, j + k),
        }
    }
}

/// A collection's items, once read, come as a list.
pub proof fn lemma_items_scan_list(
    s: Seq<char>,
    ctx: ReaderContext,
    close: char,
    kind: Coll,
    i: nat,
    acc: Seq<FormV>,
)
    ensures
        items_scan_from(s, ctx, close, kind, i, acc) matches Scan::Done(f, _) ==> f is List,
    decreases s.len() - i,
{
    let j = i + skip_len(s.skip(i as int));
    if j < s.len() && s[j as int] != close && !is_closer(s[j as int]) {
        match datum_scan(s.skip(j as int), ctx) {
            Scan::Done(f, k) => if k > 0 && j + k <= s.len() {
                lemma_items_scan_list(s, ctx, close, kind, j + k, acc.push(f));
            },
            _ => {},
        }
    }
}

/// What reading the items of a collection opened by `s[0]` does.
pub open spec fn items_scan(s: Seq<char>, ctx: ReaderContext, close: char, kind: Coll) -> Scan {
    items_scan_from(s, ctx, close, kind, 1, Seq::empty())
}

/// The items read agree with scan `sc` (whose datum is `List(items)`).
pub open spec fn items_outcome(
    old: Source,
    new: Source,
    r: Result<Vec<Form>, ReadError>,
    sc: Scan,
) -> bool {
    match sc {
        Scan::Done(f, k) => r matches Ok(v) && FormV::List(forms_view(v@)) == f && new
            == old.advanced(k),
        Scan::Fail(e, p, k) => r matches Err(err) && err.kind@ == e && err.line == old.advanced(
            p,
        ).spec_line() && err.column == old.advanced(p).spec_column() && new == old.advanced(k),
    }
}

/// Read items up to the closing delimiter `close`; the opening delimiter
/// is the next character.
#[verifier::rlimit(50)]
fn read_items(src: &mut Source, ctx: &ReaderContext, close: char, kind: Coll) -> (r: Result<
    Vec<Form>,
    ReadError,
>)
    requires
        old(src).wf(),
        old(src).has_room(),
        old(src).rest().len() > 0,
    ensures
        items_outcome(*old(src), *final(src), r, items_scan(old(src).rest(), *ctx, close, kind)),
        final(src).wf(),
        final(src).has_room(),
{
    let ghost s0 = *src;
    let ghost r0 = src.rest();
    let start_line = src.line();
    let start_col = src.column();
    proof {
        s0.lemma_step();
        s0.lemma_advanced(0);
        s0.lemma_advanced(1);
    }
    src.advance();
    let mut items: Vec<Form> = Vec::new();
    let ghost mut i: nat = 1;
    assert(forms_view(items@) =~= Seq::<FormV>::empty());
    loop
        invariant
            s0 == *old(src),
            s0.wf(),
            s0.has_room(),
            s0.rest() == r0,
            1 <= i <= r0.len(),
            *src == s0.advanced(i),
            src.wf(),
            src.has_room(),
            src.rest() == r0.skip(i as int),
            items_scan(r0, *ctx, close, kind) == items_scan_from(r0, *ctx, close, kind, i, forms_view(items@)),
            start_line == s0.spec_line(),
            start_col == s0.spec_column(),
        decreases r0.len() - i,
    {
        let ghost t = r0.skip(i as int);
        proof {
            lemma_skip_len_bounds(t);
        }
        skip_ws_and_comments(src);
        let ghost j = i + skip_len(t);
        proof {
            s0.lemma_advanced_add(i, skip_len(t));
            s0.lemma_advanced(j);
            assert(r0.skip(j as int) =~= t.skip(skip_len(t) as int));
        }
        let c = match src.peek() {
            Some(c) => c,
            None => {
                return Err(ReadError { kind: ReadErrorKind::EofInCollection(kind), line: start_line, column: start_col });
            },
        };
        proof {
            assert(r0.skip(j as int)[0] == r0[j as int]);
        }
        if c == close {
            proof {
                src.lemma_step();
                s0.lemma_advanced(j + 1);
            }
            src.advance();
            return Ok(items);
        }
        if c == ')' || c == ']' || c == '}' {
            return Err(ReadError { kind: ReadErrorKind::UnmatchedInCollection(close, c), line: src.line(), column: src.column() });
        }
        let ghost sj = *src;
        let r = read_one(src, ctx);
        proof {
            lemma_skip_len_bounds(r0.skip(j as int));
            assert(skip_len(r0.skip(j as int)) == 0) by {
                assert(r0.skip(j as int)[0] == c);
            }
            assert(r0.skip(j as int).skip(0) =~= r0.skip(j as int));
            lemma_datum_scan_progress(r0.skip(j as int), *ctx);
        }
        match r {
            Ok(f) => {
                let ghost k = match datum_scan(r0.skip(j as int), *ctx) {
                    Scan::Done(_, k) => k,
                    Scan::Fail(_, _, k) => k,
                };
                proof {
                    lemma_forms_view_push(items@, f);
                    s0.lemma_advanced_add(j, k);
                    s0.lemma_advanced(j + k);
                    assert(r0.skip(j as int).skip(k as int) =~= r0.skip((j + k) as int));
                    i = j + k;
                }
                items.push(f);
            },
            Err(e) => {
                proof {
                    lemma_outcome_shift(s0, j, *src, Err(e), datum_scan(r0.skip(j as int), *ctx));
                }
                return Err(e);
            },
        }
    }
}

/// What reading a list does with `s`, which starts with `(`.
pub open spec fn list_scan(s: Seq<char>, ctx: ReaderContext) -> Scan {
    items_scan(s, ctx, ')', Coll::List)
}

/// Read a list; the next character is the `(`.
pub fn list_reader(src: &mut Source, ctx: &ReaderContext) -> (r: Result<Form, ReadError>)
    requires
        old(src).wf(),
        old(src).has_room(),
        old(src).rest().len() > 0,
        old(src).rest()[0] == '(',
    ensures
        form_outcome(*old(src), *final(src), r, list_scan(old(src).rest(), *ctx)),
        final(src).wf(),
        final(src).has_room(),
{
    match read_items(src, ctx, ')', Coll::List) {
        Ok(items) => Ok(Form::List(items)),
        Err(e) => Err(e),
    }
}

/// What reading a vector does with `s`, which starts with `[`.
pub open spec fn vector_scan(s: Seq<char>, ctx: ReaderContext) -> Scan {
    match items_scan(s, ctx, ']', Coll::Vector) {
        Scan::Done(FormV::List(items), k) => Scan::Done(FormV::Vector(items), k),
        other => other,
    }
}

/// Read a vector; the next character is the `[`.
pub fn vector_reader(src: &mut Source, ctx: &ReaderContext) -> (r: Result<Form, ReadError>)
    requires
        old(src).wf(),
        old(src).has_room(),
        old(src).rest().len() > 0,
        old(src).rest()[0] == '[',
    ensures
        form_outcome(*old(src), *final(src), r, vector_scan(old(src).rest(), *ctx)),
        final(src).wf(),
        final(src).has_room(),
{
    match read_items(src, ctx, ']', Coll::Vector) {
        Ok(items) => Ok(Form::Vector(items)),
        Err(e) => Err(e),
    }
}

/// What reading a map does with `s`, which starts with `{`: an odd number
/// of forms is refused.
pub open spec fn map_scan(s: Seq<char>, ctx: ReaderContext) -> Scan {
    match items_scan(s, ctx, '}', Coll::ArrayMap) {
        Scan::Done(FormV::List(items), k) => if items.len() % 2 != 0 {
            Scan::Fail(ReadErrorKindV::MapOddForms, 0, k)
        } else {
            Scan::Done(FormV::ArrayMap(items), k)
        },
        other => other,
    }
}

/// Read a map; the next character is the `{`.
pub fn map_reader(src: &mut Source, ctx: &ReaderContext) -> (r: Result<Form, ReadError>)
    requires
        old(src).wf(),
        old(src).has_room(),
        old(src).rest().len() > 0,
        old(src).rest()[0] == '{',
    ensures
        form_outcome(*old(src), *final(src), r, map_scan(old(src).rest(), *ctx)),
        final(src).wf(),
        final(src).has_room(),
{
    let start_line = src.line();
    let start_col = src.column();
    let ghost s0 = *src;
    proof {
        s0.lemma_advanced(0);
    }
    match read_items(src, ctx, '}', Coll::ArrayMap) {
        Ok(items) => {
            proof {
                lemma_forms_view(items@);
            }
            if items.len() % 2 != 0 {
                Err(ReadError { kind: ReadErrorKind::MapOddForms, line: start_line, column: start_col })
            } else {
                Ok(Form::ArrayMap(items))
            }
        },
        Err(e) => Err(e),
    }
}

/// `f` with all its metadata left out, at any depth: what equality of
/// values looks at.
pub open spec fn strip_meta(f: FormV) -> FormV
    decreases f,
{
    match f {
        FormV::Meta(_, t) => strip_meta(*t),
        FormV::List(items) => FormV::List(strip_all(items)),
        FormV::Vector(items) => FormV::Vector(strip_all(items)),
        FormV::ArrayMap(items) => FormV::ArrayMap(strip_all(items)),
        FormV::HashSet(items) => FormV::HashSet(strip_all(items)),
        _ => f,
    }
}

/// [`strip_meta`] of each form of `s`.
pub open spec fn strip_all(s: Seq<FormV>) -> Seq<FormV>
    decreases s,
{
    if s.len() == 0 {
        s
    } else {
        strip_all(s.subrange(0, s.len() - 1)).push(strip_meta(s[s.len() - 1]))
    }
}

proof fn lemma_strip_all(s: Seq<FormV>)
    ensures
        strip_all(s).len() == s.len(),
        forall|i: int| 0 <= i < s.len() ==> #[trigger] strip_all(s)[i] == strip_meta(s[i]),
    decreases s.len(),
{
    if s.len() > 0 {
        let init = s.subrange(0, s.len() - 1);
        lemma_strip_all(init);
        assert forall|i: int| 0 <= i < s.len() implies #[trigger] strip_all(s)[i] == strip_meta(s[i]) by {
            if i < s.len() - 1 {
                assert(init[i] == s[i]);
            }
        }
    }
}

/// [`strip_meta`]: a copy of `f` without its metadata.
fn strip_meta_exec(f: &Form) -> (r: Form)
    ensures
        r@ == strip_meta(f@),
    decreases f,
{
    match f {
        Form::Meta(_, t) => strip_meta_exec(t),
        Form::List(v) => Form::List(strip_vec(v)),
        Form::Vector(v) => Form::Vector(strip_vec(v)),
        Form::ArrayMap(v) => Form::ArrayMap(strip_vec(v)),
        Form::HashSet(v) => Form::HashSet(strip_vec(v)),
        _ => crate::reader::form::copy_form(f),
    }
}

fn strip_vec(v: &Vec<Form>) -> (r: Vec<Form>)
    ensures
        forms_view(r@) == strip_all(forms_view(v@)),
    decreases v,
{
    proof {
        lemma_forms_view(v@);
    }
    let ghost s = forms_view(v@);
    let mut out: Vec<Form> = Vec::new();
    let mut i: usize = 0;
    assert(forms_view(out@) =~= strip_all(s.take(0)));
    while i < v.len()
        invariant
            i <= v@.len(),
            s == forms_view(v@),
            s.len() == v@.len(),
            forall|j: int| 0 <= j < v@.len() ==> #[trigger] s[j] == form_view(v@[j]),
            forms_view(out@) == strip_all(s.take(i as int)),
        decreases v@.len() - i,
    {
        let f = strip_meta_exec(&v[i]);
        proof {
            lemma_forms_view_push(out@, f);
        }
        out.push(f);
        assert(s.take(i + 1).subrange(0, i as int) =~= s.take(i as int));
        assert(s.take(i + 1)[i as int] == s[i as int]);
        i = i + 1;
    }
    assert(s.take(i as int) =~= s);
    out
}

/// Two items of `s` are the same value once metadata is left out.
pub open spec fn has_duplicate(s: Seq<FormV>) -> bool {
    exists|i: int, j: int| 0 <= i < j < s.len() && strip_meta(s[i]) == strip_meta(s[j])
}

fn find_duplicate(v: &Vec<Form>) -> (r: bool)
    ensures
        r == has_duplicate(forms_view(v@)),
{
    proof {
        lemma_forms_view(v@);
    }
    let w = strip_vec(v);
    proof {
        lemma_forms_view(w@);
        lemma_strip_all(forms_view(v@));
    }
    let ghost s = forms_view(v@);
    let ghost t = forms_view(w@);
    let mut j: usize = 0;
    while j < w.len()
        invariant
            j <= w@.len(),
            t == forms_view(w@),
            s == forms_view(v@),
            t.len() == w@.len(),
            s.len() == w@.len(),
            forall|x: int| 0 <= x < w@.len() ==> #[trigger] t[x] == w@[x]@,
            forall|x: int| 0 <= x < s.len() ==> #[trigger] t[x] == strip_meta(s[x]),
            forall|a: int, b: int| 0 <= a < b < j ==> t[a] != t[b],
        decreases w@.len() - j,
    {
        let mut i: usize = 0;
        while i < j
            invariant
                i <= j < w@.len(),
                t == forms_view(w@),
                s == forms_view(v@),
                t.len() == w@.len(),
                s.len() == w@.len(),
                forall|x: int| 0 <= x < w@.len() ==> #[trigger] t[x] == w@[x]@,
                forall|x: int| 0 <= x < s.len() ==> #[trigger] t[x] == strip_meta(s[x]),
                forall|a: int, b: int| 0 <= a < b < j ==> t[a] != t[b],
                forall|a: int| 0 <= a < i ==> t[a] != t[j as int],
            decreases j - i,
        {
            if forms_equal_one(&w[i], &w[j]) {
                assert(t[i as int] == t[j as int]);
                assert(strip_meta(s[i as int]) == strip_meta(s[j as int]));
                assert(0 <= i < j < s.len() && strip_meta(s[i as int]) == strip_meta(s[j as int]));
                assert(has_duplicate(s));
                return true;
            }
            i = i + 1;
        }
        j = j + 1;
    }
    assert forall|a: int, b: int| 0 <= a < b < s.len() implies strip_meta(s[a]) != strip_meta(s[b]) by {
        assert(t[a] != t[b]);
    }
    false
}

/// What reading a set does with `s`, which starts with `{` (after `#`): a
/// value written twice (metadata aside) is refused.
pub open spec fn set_scan(s: Seq<char>, ctx: ReaderContext) -> Scan {
    match items_scan(s, ctx, '}', Coll::HashSet) {
        Scan::Done(FormV::List(items), k) => if has_duplicate(items) {
            Scan::Fail(ReadErrorKindV::DuplicateSetKey, 0, k)
        } else {
            Scan::Done(FormV::HashSet(items), k)
        },
        other => other,
    }
}

/// Read a set; `#` is consumed and the next character is the `{`.
pub fn set_reader(src: &mut Source, ctx: &ReaderContext) -> (r: Result<Form, ReadError>)
    requires
        old(src).wf(),
        old(src).has_room(),
        old(src).rest().len() > 0,
        old(src).rest()[0] == '{',
    ensures
        form_outcome(*old(src), *final(src), r, set_scan(old(src).rest(), *ctx)),
        final(src).wf(),
        final(src).has_room(),
{
    let start_line = src.line();
    let start_col = src.column();
    let ghost s0 = *src;
    proof {
        s0.lemma_advanced(0);
    }
    match read_items(src, ctx, '}', Coll::HashSet) {
        Ok(items) => {
            if find_duplicate(&items) {
                Err(ReadError { kind: ReadErrorKind::DuplicateSetKey, line: start_line, column: start_col })
            } else {
                Ok(Form::HashSet(items))
            }
        },
        Err(e) => Err(e),
    }
}

/// What reading a regex literal does with `s` from index `i`, having
/// collected `acc` of the pattern so far. A backslash is kept with the
/// character after it, except that `\"` stands for a quote.
pub open spec fn regex_scan_from(s: Seq<char>, i: nat, acc: Seq<char>) -> Scan
    decreases s.len() - i,
{
    if i >= s.len() {
        Scan::Fail(ReadErrorKindV::EofInRegex, 0, s.len())
    } else if s[i as int] == '"' {
        Scan::Done(FormV::Regex(acc), i + 1)
    } else if s[i as int] == '\\' {
        if i + 1 >= s.len() {
            Scan::Fail(ReadErrorKindV::EofInRegexEscape, 0, s.len())
        } else if s[(i + 1) as int] == '"' {
            regex_scan_from(s, i + 2, acc.push('"'))
        } else {
            regex_scan_from(s, i + 2, acc.push('\\').push(s[(i + 1) as int]))
        }
    } else {
        regex_scan_from(s, i + 1, acc.push(s[i as int]))
    }
}

/// What reading `#"pattern"` does with `s`, which starts with the `"`.
pub open spec fn regex_scan(s: Seq<char>) -> Scan {
    regex_scan_from(s, 1, Seq::empty())
}

/// `#"pattern"`: a regex literal, read as its pattern text. The `#` is
/// consumed and the next character is the `"`.
pub fn regex_reader(src: &mut Source) -> (r: Result<Form, ReadError>)
    requires
        old(src).wf(),
        old(src).has_room(),
        old(src).rest().len() > 0,
        old(src).rest()[0] == '"',
    ensures
        form_outcome(*old(src), *final(src), r, regex_scan(old(src).rest())),
        final(src).wf(),
        final(src).has_room(),
{
    let ghost s0 = *src;
    let ghost r0 = src.rest();
    let start_line = src.line();
    let start_col = src.column();
    proof {
        s0.lemma_step();
        s0.lemma_advanced(0);
        s0.lemma_advanced(1);
    }
    src.advance();
    let mut pattern: Vec<char> = Vec::new();
    let ghost mut i: nat = 1;
    loop
        invariant
            s0 == *old(src),
            s0.wf(),
            s0.has_room(),
            s0.rest() == r0,
            r0.len() > 0,
            1 <= i <= r0.len(),
            *src == s0.advanced(i),
            src.wf(),
            src.has_room(),
            src.rest() == r0.skip(i as int),
            regex_scan(r0) == regex_scan_from(r0, i, pattern@),
            start_line == s0.spec_line(),
            start_col == s0.spec_column(),
        decreases r0.len() - i,
    {
        proof {
            src.lemma_step();
        }
        let c = match src.advance() {
            Some(c) => c,
            None => {
                return Err(ReadError { kind: ReadErrorKind::EofInRegex, line: start_line, column: start_col });
            },
        };
        proof {
            assert(r0.skip(i as int)[0] == r0[i as int]);
            assert(r0.skip(i as int).drop_first() =~= r0.skip((i + 1) as int));
            i = i + 1;
            s0.lemma_advanced(i);
        }
        if c == '"' {
            return Ok(Form::Regex(chars_to_string(&pattern)));
        }
        if c == '\\' {
            proof {
                src.lemma_step();
            }
            let e = match src.advance() {
                Some(e) => e,
                None => {
                    return Err(ReadError { kind: ReadErrorKind::EofInRegexEscape, line: start_line, column: start_col });
                },
            };
            proof {
                assert(r0.skip(i as int)[0] == r0[i as int]);
                assert(r0.skip(i as int).drop_first() =~= r0.skip((i + 1) as int));
                i = i + 1;
                s0.lemma_advanced(i);
            }
            if e == '"' {
                pattern.push('"');
            } else {
                pattern.push('\\');
                pattern.push(e);
            }
        } else {
            pattern.push(c);
        }
    }
}

/// What reading `~form` or `~@form` does with `s`, which starts with `~`.
pub open spec fn unquote_scan(s: Seq<char>, ctx: ReaderContext) -> Scan {
    if s.len() > 1 && s[1] == '@' {
        scan_wrap(
            scan_shift(read_one_scan(s.skip(2), ctx), 2),
            qsym_v("clojure.core"@, "unquote-splicing"@),
        )
    } else {
        scan_wrap(scan_shift(read_one_scan(s.drop_first(), ctx), 1), qsym_v("clojure.core"@, "unquote"@))
    }
}

/// `~form` reads as `(clojure.core/unquote form)`, `~@form` as
/// `(clojure.core/unquote-splicing form)`; the next character is the `~`.
pub fn unquote_reader(src: &mut Source, ctx: &ReaderContext) -> (r: Result<Form, ReadError>)
    requires
        old(src).wf(),
        old(src).has_room(),
        old(src).rest().len() > 0,
        old(src).rest()[0] == '~',
    ensures
        form_outcome(*old(src), *final(src), r, unquote_scan(old(src).rest(), *ctx)),
        final(src).wf(),
        final(src).has_room(),
{
    let ghost s0 = *src;
    let ghost r0 = src.rest();
    proof {
        s0.lemma_step();
        s0.lemma_advanced(1);
        assert(s0.advanced(0) == s0);
    }
    src.advance();
    let splicing = src.peek() == Some('@');
    proof {
        assert(r0.drop_first() =~= r0.skip(1));
    }
    let head = if splicing {
        proof {
            src.lemma_step();
            s0.lemma_advanced(2);
            assert(r0.skip(1).drop_first() =~= r0.skip(2));
        }
        src.advance();
        mk_qsym("clojure.core", "unquote-splicing")
    } else {
        mk_qsym("clojure.core", "unquote")
    };
    let ghost w: nat = if splicing {
        2
    } else {
        1
    };
    let r = read_one(src, ctx);
    proof {
        lemma_outcome_shift(s0, w, *src, r, read_one_scan(r0.skip(w as int), *ctx));
    }
    match r {
        Ok(f) => Ok(mk_list2(head, f)),
        Err(e) => Err(e),
    }
}

} // verus!
