//! The printer: a form's text, readable (`pr-str`) or for display
//! (`print-str`), with collections cut off after `*print-length*` items.

use vstd::prelude::*;
use crate::reader::form::{Form, FormV, Sym, SymV, form_view, forms_view, lemma_forms_view};
use crate::text::{int_decimal, push_char, push_i64_decimal, push_str, string_eq_str, string_to_chars};

verus! {

/// The print settings of one print call: `*print-length*` (the most items
/// a collection shows, `None` for no limit), `*print-level*` (a collection
/// at a depth at or beyond it prints as `#`, `None` for no limit),
/// `*print-meta*` (metadata prints as `^M val`), `*print-namespace-maps*`
/// (a map whose keys are all keywords of one namespace prints as
/// `#:ns{...}`), whether strings print readably (quoted and escaped), and
/// the depth of the value being printed (0 at the top).
pub struct PrintCtx {
    pub length: Option<i64>,
    pub level: Option<i64>,
    pub meta: bool,
    pub ns_maps: bool,
    pub readable: bool,
    pub depth: i64,
}

/// How many levels of collections are left to print before they show as
/// `#`: `level - depth`, `None` without a level.
pub open spec fn budget_of(ctx: PrintCtx) -> Option<int> {
    match ctx.level {
        Some(l) => Some(l - ctx.depth),
        None => None,
    }
}

/// No levels left: a collection here prints as `#`.
pub open spec fn cut_off(b: Option<int>) -> bool {
    b matches Some(x) && x <= 0
}

/// The budget one level further in.
pub open spec fn below(b: Option<int>) -> Option<int> {
    match b {
        Some(x) => Some(x - 1),
        None => None,
    }
}

/// `k` is a keyword of namespace `ns`.
pub open spec fn key_in_ns(k: FormV, ns: Seq<char>) -> bool {
    k matches FormV::Keyword(s) && s.ns == Some(ns)
}

/// The namespace shared by every key of a map (flattened items), when the
/// map has a key and every key is a keyword of that one namespace.
pub open spec fn lifted_ns(items: Seq<FormV>) -> Option<Seq<char>> {
    if items.len() >= 2 && items[0] is Keyword && items[0]->Keyword_0.ns is Some && (forall|i: int|
        0 <= i < items.len() / 2 ==> #[trigger] key_in_ns(items[2 * i], items[0]->Keyword_0.ns.unwrap())) {
        items[0]->Keyword_0.ns
    } else {
        None
    }
}

/// A key of a namespace map as it is shown: `:name`, its namespace left out.
pub open spec fn short_key(k: FormV) -> Seq<char> {
    match k {
        FormV::Keyword(s) => seq![':'] + s.name,
        _ => Seq::empty(),
    }
}

/// The texts of a map's flattened items with each key shown short.
pub open spec fn short_keys(texts: Seq<Seq<char>>, items: Seq<FormV>) -> Seq<Seq<char>> {
    Seq::new(texts.len(), |i: int| if i % 2 == 0 { short_key(items[i]) } else { texts[i] })
}

/// The text of `f` under the settings `c`, with `b` levels left (see
/// [`budget_of`]): collections show at most `c.length` items each, and
/// print as `#` when no level is left; strings are quoted and escaped when
/// `c.readable`; metadata shows as `^M val` when `c.meta`; a map whose keys
/// are all keywords of one namespace shows as `#:ns{...}` when `c.ns_maps`.
pub open spec fn pr_at(f: FormV, c: PrintCtx, b: Option<int>) -> Seq<char>
    decreases f,
{
    let lim = limit_of(c.length);
    match f {
        FormV::List(items) => if cut_off(b) {
            seq!['#']
        } else {
            seq!['('] + join(with_more(pr_at_items(items, c, below(b)), items.len(), lim), seq![' '])
                + seq![')']
        },
        FormV::Vector(items) => if cut_off(b) {
            seq!['#']
        } else {
            seq!['['] + join(with_more(pr_at_items(items, c, below(b)), items.len(), lim), seq![' '])
                + seq![']']
        },
        FormV::ArrayMap(items) => if cut_off(b) {
            seq!['#']
        } else if c.ns_maps && lifted_ns(items) is Some {
            seq!['#', ':'] + lifted_ns(items).unwrap() + seq!['{'] + join(
                with_more(
                    entries(short_keys(pr_at_items(items, c, below(b)), items)),
                    items.len() / 2,
                    lim,
                ),
                seq![',', ' '],
            ) + seq!['}']
        } else {
            seq!['{'] + join(
                with_more(entries(pr_at_items(items, c, below(b))), items.len() / 2, lim),
                seq![',', ' '],
            ) + seq!['}']
        },
        FormV::HashSet(items) => if cut_off(b) {
            seq!['#']
        } else {
            seq!['#', '{'] + join(
                with_more(pr_at_items(items, c, below(b)), items.len(), lim),
                seq![' '],
            ) + seq!['}']
        },
        FormV::Meta(m, t) => if c.meta {
            seq!['^'] + pr_at(*m, c, b) + seq![' '] + pr_at(*t, c, b)
        } else {
            pr_at(*t, c, b)
        },
        _ => pr(f, lim, c.readable),
    }
}

/// The text of each form of `items` under `c` with `b` levels left.
pub open spec fn pr_at_items(items: Seq<FormV>, c: PrintCtx, b: Option<int>) -> Seq<Seq<char>>
    decreases items,
{
    if items.len() == 0 {
        Seq::empty()
    } else {
        pr_at_items(items.subrange(0, items.len() - 1), c, b).push(
            pr_at(items[items.len() - 1], c, b),
        )
    }
}

pub proof fn lemma_pr_at_items(items: Seq<FormV>, c: PrintCtx, b: Option<int>)
    ensures
        pr_at_items(items, c, b).len() == items.len(),
        forall|i: int|
            0 <= i < items.len() ==> #[trigger] pr_at_items(items, c, b)[i] == pr_at(items[i], c, b),
    decreases items.len(),
{
    if items.len() > 0 {
        let init = items.subrange(0, items.len() - 1);
        lemma_pr_at_items(init, c, b);
        assert forall|i: int| 0 <= i < items.len() implies #[trigger] pr_at_items(items, c, b)[i]
            == pr_at(items[i], c, b) by {
            if i < items.len() - 1 {
                assert(init[i] == items[i]);
            }
        }
    }
}

/// Without a level, metadata or namespace maps, [`pr_at`] is [`pr`].
pub proof fn lemma_pr_at_plain(f: FormV, c: PrintCtx)
    requires
        !c.meta,
        !c.ns_maps,
    ensures
        pr_at(f, c, None) == pr(f, limit_of(c.length), c.readable),
    decreases f,
{
    let lim = limit_of(c.length);
    match f {
        FormV::List(items) => lemma_pr_at_plain_items(items, c),
        FormV::Vector(items) => lemma_pr_at_plain_items(items, c),
        FormV::ArrayMap(items) => lemma_pr_at_plain_items(items, c),
        FormV::HashSet(items) => lemma_pr_at_plain_items(items, c),
        FormV::Meta(m, t) => lemma_pr_at_plain(*t, c),
        _ => {},
    }
}

proof fn lemma_pr_at_plain_items(items: Seq<FormV>, c: PrintCtx)
    requires
        !c.meta,
        !c.ns_maps,
    ensures
        pr_at_items(items, c, None) == pr_items(items, limit_of(c.length), c.readable),
    decreases items,
{
    lemma_pr_at_items(items, c, None);
    lemma_pr_items(items, limit_of(c.length), c.readable);
    assert forall|i: int| 0 <= i < items.len() implies pr_at_items(items, c, None)[i] == pr_items(
        items,
        limit_of(c.length),
        c.readable,
    )[i] by {
        lemma_pr_at_plain(items[i], c);
    }
    assert(pr_at_items(items, c, None) =~= pr_items(items, limit_of(c.length), c.readable));
}

/// The most items a collection shows: a negative length shows none.
pub open spec fn limit_of(length: Option<i64>) -> Option<nat> {
    match length {
        Some(l) => Some(
            if l < 0 {
                0
            } else {
                l as nat
            },
        ),
        None => None,
    }
}

/// How many of `n` items are shown under limit `lim`.
pub open spec fn shown(n: nat, lim: Option<nat>) -> nat {
    match lim {
        Some(l) => if l < n {
            l
        } else {
            n
        },
        None => n,
    }
}

/// The parts joined with `sep` between them.
pub open spec fn join(parts: Seq<Seq<char>>, sep: Seq<char>) -> Seq<char>
    decreases parts.len(),
{
    if parts.len() == 0 {
        Seq::empty()
    } else if parts.len() == 1 {
        parts[0]
    } else {
        join(parts.drop_last(), sep) + sep + parts.last()
    }
}

/// The parts of the items shown out of `n`, and `...` when some are left
/// out.
pub open spec fn with_more(parts: Seq<Seq<char>>, n: nat, lim: Option<nat>) -> Seq<Seq<char>> {
    let k = shown(n, lim);
    if k < n {
        parts.take(k as int).push("..."@)
    } else {
        parts.take(k as int)
    }
}

/// Map entries `key value` from the texts of a map's flattened items.
pub open spec fn entries(parts: Seq<Seq<char>>) -> Seq<Seq<char>> {
    Seq::new(parts.len() / 2, |i: int| parts[2 * i] + seq![' '] + parts[2 * i + 1])
}

/// `ns/name`, or `name` without a namespace.
pub open spec fn sym_text(s: SymV) -> Seq<char> {
    match s.ns {
        Some(ns) => ns + seq!['/'] + s.name,
        None => s.name,
    }
}

/// A character of a string as it is written inside a readable string.
pub open spec fn escape_char(c: char) -> Seq<char> {
    if c == '\n' {
        seq!['\\', 'n']
    } else if c == '\t' {
        seq!['\\', 't']
    } else if c == '\r' {
        seq!['\\', 'r']
    } else if c == '\\' {
        seq!['\\', '\\']
    } else if c == '"' {
        seq!['\\', '"']
    } else {
        seq![c]
    }
}

/// The characters of `s`, each escaped.
pub open spec fn escape_body(s: Seq<char>) -> Seq<char>
    decreases s.len(),
{
    if s.len() == 0 {
        Seq::empty()
    } else {
        escape_body(s.drop_last()) + escape_char(s.last())
    }
}

/// A string as a readable string literal.
pub open spec fn escape_str(s: Seq<char>) -> Seq<char> {
    seq!['"'] + escape_body(s) + seq!['"']
}

/// The text of `f`: collections show at most `lim` items each, strings are
/// quoted and escaped when `readable`, metadata is not shown.
pub open spec fn pr(f: FormV, lim: Option<nat>, readable: bool) -> Seq<char>
    decreases f,
{
    match f {
        FormV::Nil => "nil"@,
        FormV::Bool(b) => if b {
            "true"@
        } else {
            "false"@
        },
        FormV::Int(n) => int_decimal(n as int),
        FormV::BigInt(d) => d,
        FormV::Float(t) => t,
        FormV::Ratio(n, d) => n + seq!['/'] + d,
        FormV::Str(s) => if readable {
            escape_str(s)
        } else {
            s
        },
        FormV::Symbol(s) => sym_text(s),
        FormV::Keyword(s) => seq![':'] + sym_text(s),
        FormV::List(items) => seq!['('] + join(
            with_more(pr_items(items, lim, readable), items.len(), lim),
            seq![' '],
        ) + seq![')'],
        FormV::Vector(items) => seq!['['] + join(
            with_more(pr_items(items, lim, readable), items.len(), lim),
            seq![' '],
        ) + seq![']'],
        FormV::ArrayMap(items) => seq!['{'] + join(
            with_more(entries(pr_items(items, lim, readable)), items.len() / 2, lim),
            seq![',', ' '],
        ) + seq!['}'],
        FormV::HashSet(items) => seq!['#', '{'] + join(
            with_more(pr_items(items, lim, readable), items.len(), lim),
            seq![' '],
        ) + seq!['}'],
        FormV::Regex(p) => seq!['#', '"'] + p + seq!['"'],
        FormV::Meta(_, t) => pr(*t, lim, readable),
        FormV::Host(t) => t,
    }
}

/// The text of each form of `items`.
pub open spec fn pr_items(items: Seq<FormV>, lim: Option<nat>, readable: bool) -> Seq<Seq<char>>
    decreases items,
{
    if items.len() == 0 {
        Seq::empty()
    } else {
        pr_items(items.subrange(0, items.len() - 1), lim, readable).push(
            pr(items[items.len() - 1], lim, readable),
        )
    }
}

pub proof fn lemma_pr_items(items: Seq<FormV>, lim: Option<nat>, readable: bool)
    ensures
        pr_items(items, lim, readable).len() == items.len(),
        forall|i: int|
            0 <= i < items.len() ==> #[trigger] pr_items(items, lim, readable)[i] == pr(
                items[i],
                lim,
                readable,
            ),
    decreases items.len(),
{
    if items.len() > 0 {
        let init = items.subrange(0, items.len() - 1);
        lemma_pr_items(init, lim, readable);
        assert forall|i: int| 0 <= i < items.len() implies #[trigger] pr_items(items, lim, readable)[i]
            == pr(items[i], lim, readable) by {
            if i < items.len() - 1 {
                assert(init[i] == items[i]);
            }
        }
    }
}

/// The views of a vector of strings.
pub open spec fn strings_view(v: Seq<String>) -> Seq<Seq<char>> {
    Seq::new(v.len(), |i: int| v[i]@)
}

proof fn lemma_strings_view_push(v: Seq<String>, s: String)
    ensures
        strings_view(v.push(s)) == strings_view(v).push(s@),
{
    assert(strings_view(v.push(s)) =~= strings_view(v).push(s@));
}

/// The parts joined with `sep` between them.
fn join_exec(parts: &Vec<String>, sep: &str) -> (r: String)
    ensures
        r@ == join(strings_view(parts@), sep@),
{
    let ghost p = strings_view(parts@);
    let mut out = String::new();
    let mut i: usize = 0;
    assert(p.take(0) =~= Seq::<Seq<char>>::empty());
    while i < parts.len()
        invariant
            i <= parts@.len(),
            p == strings_view(parts@),
            out@ == join(p.take(i as int), sep@),
        decreases parts@.len() - i,
    {
        let ghost before = out@;
        assert(p.take(i + 1).drop_last() =~= p.take(i as int));
        assert(p.take(i + 1).last() == parts@[i as int]@);
        if i > 0 {
            push_str(&mut out, sep);
        }
        push_str(&mut out, parts[i].as_str());
        proof {
            if i == 0 {
                assert(out@ =~= p.take(1)[0]);
            } else {
                assert(out@ =~= before + sep@ + parts@[i as int]@);
            }
        }
        i = i + 1;
    }
    assert(p.take(i as int) =~= p);
    out
}

/// How many of `n` items are shown under `length`.
fn shown_exec(n: usize, length: Option<i64>) -> (k: usize)
    ensures
        k == shown(n as nat, limit_of(length)),
{
    match length {
        Some(l) => {
            if l < 0 {
                0
            } else if (l as u64) < (n as u64) {
                l as usize
            } else {
                n
            }
        },
        None => n,
    }
}

/// The budget as a number of levels.
pub open spec fn budget_view(b: Option<i128>) -> Option<int> {
    match b {
        Some(x) => Some(x as int),
        None => None,
    }
}

/// The texts of the first `k` forms of `items`, with `b` levels left.
fn item_texts(items: &Vec<Form>, k: usize, ctx: &PrintCtx, b: Option<i128>) -> (r: Vec<String>)
    requires
        k <= items@.len(),
    ensures
        strings_view(r@) == pr_at_items(forms_view(items@), *ctx, budget_view(b)).take(k as int),
    decreases items, 0nat,
{
    let ghost bv = budget_view(b);
    proof {
        lemma_forms_view(items@);
        lemma_pr_at_items(forms_view(items@), *ctx, bv);
    }
    let ghost all = pr_at_items(forms_view(items@), *ctx, bv);
    let mut out: Vec<String> = Vec::new();
    let mut i: usize = 0;
    while i < k
        invariant
            k <= items@.len(),
            i <= k,
            bv == budget_view(b),
            all == pr_at_items(forms_view(items@), *ctx, bv),
            all.len() == items@.len(),
            forall|j: int| 0 <= j < items@.len() ==> #[trigger] all[j] == pr_at(forms_view(items@)[j], *ctx, bv),
            forall|j: int| 0 <= j < items@.len() ==> #[trigger] forms_view(items@)[j] == form_view(items@[j]),
            strings_view(out@) == all.take(i as int),
        decreases k - i,
    {
        let t = pr_form(&items[i], ctx, b);
        let ghost before = out@;
        out.push(t);
        proof {
            assert(all[i as int] == pr_at(forms_view(items@)[i as int], *ctx, bv));
            assert(forms_view(items@)[i as int] == items@[i as int]@);
            lemma_strings_view_push(before, t);
            assert(all.take(i as int).push(all[i as int]) =~= all.take(i + 1));
        }
        i = i + 1;
    }
    out
}

/// `parts` with `...` added when `k` of `n` items are shown.
fn add_more(parts: &mut Vec<String>, k: usize, n: usize)
    ensures
        strings_view(final(parts)@) == if k < n {
            strings_view(old(parts)@).push("..."@)
        } else {
            strings_view(old(parts)@)
        },
{
    if k < n {
        let mut dots = String::new();
        push_str(&mut dots, "...");
        proof {
            lemma_strings_view_push(parts@, dots);
        }
        parts.push(dots);
    }
}

/// The text of the items of a list, vector or set between `open` and
/// `close`, the items having `b` levels left.
fn pr_seq_items(items: &Vec<Form>, ctx: &PrintCtx, b: Option<i128>, open: &str, close: &str) -> (r: String)
    ensures
        r@ == open@ + join(
            with_more(
                pr_at_items(forms_view(items@), *ctx, budget_view(b)),
                forms_view(items@).len(),
                limit_of(ctx.length),
            ),
            seq![' '],
        ) + close@,
    decreases items, 1nat,
{
    proof {
        lemma_forms_view(items@);
    }
    let n = items.len();
    let k = shown_exec(n, ctx.length);
    let mut parts = item_texts(items, k, ctx, b);
    add_more(&mut parts, k, n);
    let mut out = String::new();
    push_str(&mut out, open);
    let body = join_exec(&parts, " ");
    push_str(&mut out, body.as_str());
    push_str(&mut out, close);
    proof {
        reveal_strlit(" ");
        assert(" "@ =~= seq![' ']);
        assert(forms_view(items@).len() == items@.len());
    }
    out
}

/// [`lifted_ns`]: the namespace of a map's keys, when they all are keywords
/// of one namespace.
fn lifted_ns_exec(items: &Vec<Form>) -> (r: Option<&String>)
    ensures
        match r {
            Some(ns) => lifted_ns(forms_view(items@)) == Some(ns@),
            None => lifted_ns(forms_view(items@)) is None,
        },
{
    proof {
        lemma_forms_view(items@);
    }
    let ghost fv = forms_view(items@);
    if items.len() < 2 {
        return None;
    }
    let ns0: &String = match &items[0] {
        Form::Keyword(s0) => match &s0.ns {
            Some(ns) => ns,
            None => {
                return None;
            },
        },
        _ => {
            return None;
        },
    };
    assert(fv[0] == items@[0]@);
    let n = items.len() / 2;
    let mut i: usize = 0;
    while i < n
        invariant
            i <= n,
            n == items@.len() / 2,
            fv == forms_view(items@),
            fv.len() == items@.len(),
            forall|j: int| 0 <= j < items@.len() ==> #[trigger] fv[j] == form_view(items@[j]),
            forall|j: int| 0 <= j < i ==> #[trigger] key_in_ns(fv[2 * j], ns0@),
            fv[0] is Keyword && fv[0]->Keyword_0.ns == Some(ns0@),
        decreases n - i,
    {
        assert(2 * i + 1 < items.len());
        let ok = match &items[2 * i] {
            Form::Keyword(s) => match &s.ns {
                Some(ns) => string_eq_str(ns, ns0.as_str()),
                None => false,
            },
            _ => false,
        };
        assert(fv[2 * i] == items@[2 * i as int]@);
        if !ok {
            proof {
                let ns = fv[0]->Keyword_0.ns.unwrap();
                assert(!key_in_ns(fv[2 * i], ns));
                assert(0 <= i < fv.len() / 2);
                assert(!(forall|x: int| 0 <= x < fv.len() / 2 ==> #[trigger] key_in_ns(fv[2 * x], ns)));
            }
            return None;
        }
        i = i + 1;
    }
    Some(ns0)
}

/// The text of a map's flattened items, the items having `b` levels left;
/// with `short` each key shows as `:name`.
fn pr_map_items(items: &Vec<Form>, ctx: &PrintCtx, b: Option<i128>, short: bool) -> (r: String)
    requires
        short ==> forall|i: int| 0 <= i < items@.len() / 2 ==> #[trigger] items@[2 * i]@ is Keyword,
    ensures
        r@ == seq!['{'] + join(
            with_more(
                entries(
                    if short {
                        short_keys(pr_at_items(forms_view(items@), *ctx, budget_view(b)), forms_view(items@))
                    } else {
                        pr_at_items(forms_view(items@), *ctx, budget_view(b))
                    },
                ),
                forms_view(items@).len() / 2,
                limit_of(ctx.length),
            ),
            seq![',', ' '],
        ) + seq!['}'],
    decreases items, 1nat,
{
    let ghost bv = budget_view(b);
    proof {
        lemma_forms_view(items@);
        lemma_pr_at_items(forms_view(items@), *ctx, bv);
    }
    let ghost fv = forms_view(items@);
    let ghost raw = pr_at_items(fv, *ctx, bv);
    let ghost all = if short {
        short_keys(raw, fv)
    } else {
        raw
    };
    let ghost ents = entries(all);
    let n = items.len() / 2;
    let k = shown_exec(n, ctx.length);
    let texts = item_texts(items, 2 * k, ctx, b);
    assert(texts@.len() == strings_view(texts@).len());
    let mut parts: Vec<String> = Vec::new();
    let mut j: usize = 0;
    while j < k
        invariant
            j <= k,
            k <= n,
            n == items@.len() / 2,
            fv == forms_view(items@),
            forall|x: int| 0 <= x < items@.len() ==> #[trigger] fv[x] == form_view(items@[x]),
            raw.len() == items@.len(),
            all == (if short {
                short_keys(raw, fv)
            } else {
                raw
            }),
            short ==> forall|i: int| 0 <= i < items@.len() / 2 ==> #[trigger] items@[2 * i]@ is Keyword,
            ents == entries(all),
            2 * k <= items@.len(),
            items@.len() <= usize::MAX,
            texts@.len() == 2 * k,
            strings_view(texts@) == raw.take(2 * k),
            strings_view(parts@) == ents.take(j as int),
        decreases k - j,
    {
        assert(strings_view(texts@)[2 * j] == texts@[2 * j]@);
        assert(strings_view(texts@)[2 * j + 1] == texts@[2 * j + 1]@);
        assert(raw.take(2 * k)[2 * j] == raw[2 * j]);
        assert(raw.take(2 * k)[2 * j + 1] == raw[2 * j + 1]);
        let mut e = String::new();
        if short {
            push_char(&mut e, ':');
            match &items[2 * j] {
                Form::Keyword(s) => push_str(&mut e, s.name.as_str()),
                _ => {},
            }
            proof {
                assert(items@[2 * j as int]@ is Keyword);
                assert(fv[2 * j] == items@[2 * j as int]@);
                assert((2 * j) as int % 2 == 0);
                assert(e@ =~= all[2 * j]);
            }
        } else {
            push_str(&mut e, texts[2 * j].as_str());
        }
        push_char(&mut e, ' ');
        push_str(&mut e, texts[2 * j + 1].as_str());
        let ghost before = parts@;
        parts.push(e);
        proof {
            if short {
                assert(((2 * j + 1) as int) % 2 == 1);
                assert(all[2 * j + 1] == raw[2 * j + 1]);
            }
            lemma_strings_view_push(before, e);
            assert(e@ =~= all[2 * j] + seq![' '] + all[2 * j + 1]);
            assert(ents[j as int] == all[2 * j] + seq![' '] + all[2 * j + 1]);
            assert(ents.take(j as int).push(ents[j as int]) =~= ents.take(j + 1));
        }
        j = j + 1;
    }
    add_more(&mut parts, k, n);
    let mut out = String::new();
    push_char(&mut out, '{');
    let body = join_exec(&parts, ", ");
    push_str(&mut out, body.as_str());
    push_char(&mut out, '}');
    proof {
        reveal_strlit(", ");
        assert(", "@ =~= seq![',', ' ']);
    }
    out
}

fn sym_text_exec(s: &Sym) -> (r: String)
    ensures
        r@ == sym_text(s@),
{
    let mut out = String::new();
    match &s.ns {
        Some(ns) => {
            push_str(&mut out, ns.as_str());
            push_char(&mut out, '/');
        },
        None => {},
    }
    push_str(&mut out, s.name.as_str());
    out
}

/// `s` as a readable string literal: quoted, with newline, tab, return,
/// backslash and quote escaped.
pub fn escape_string(s: &str) -> (r: String)
    ensures
        r@ == escape_str(s@),
{
    let chars = string_to_chars(s);
    let mut out = String::new();
    push_char(&mut out, '"');
    let mut i: usize = 0;
    while i < chars.len()
        invariant
            i <= chars@.len(),
            chars@ == s@,
            out@ == seq!['"'] + escape_body(chars@.take(i as int)),
        decreases chars@.len() - i,
    {
        let c = chars[i];
        let ghost before = out@;
        if c == '\n' {
            push_char(&mut out, '\\');
            push_char(&mut out, 'n');
        } else if c == '\t' {
            push_char(&mut out, '\\');
            push_char(&mut out, 't');
        } else if c == '\r' {
            push_char(&mut out, '\\');
            push_char(&mut out, 'r');
        } else if c == '\\' {
            push_char(&mut out, '\\');
            push_char(&mut out, '\\');
        } else if c == '"' {
            push_char(&mut out, '\\');
            push_char(&mut out, '"');
        } else {
            push_char(&mut out, c);
        }
        proof {
            assert(chars@.take(i + 1).drop_last() =~= chars@.take(i as int));
            assert(out@ =~= before + escape_char(c));
        }
        i = i + 1;
    }
    assert(chars@.take(i as int) =~= s@);
    push_char(&mut out, '"');
    out
}

/// [`pr_at`]: the text of `x` under the settings `ctx` with `b` levels left.
fn pr_form(x: &Form, ctx: &PrintCtx, b: Option<i128>) -> (r: String)
    ensures
        r@ == pr_at(x@, *ctx, budget_view(b)),
    decreases x, 2nat,
{
    proof {
        reveal_strlit("(");
        reveal_strlit(")");
        reveal_strlit("[");
        reveal_strlit("]");
        reveal_strlit("#{");
        reveal_strlit("}");
    }
    let cut = match b {
        Some(v) => v <= 0,
        None => false,
    };
    let nb: Option<i128> = match b {
        Some(v) => if v > 0 {
            Some(v - 1)
        } else {
            Some(v)
        },
        None => None,
    };
    assert(!cut ==> budget_view(nb) == below(budget_view(b)));
    let mut out = String::new();
    match x {
        Form::List(items) => {
            if cut {
                push_char(&mut out, '#');
            } else {
                return pr_seq_items(items, ctx, nb, "(", ")");
            }
        },
        Form::Vector(items) => {
            if cut {
                push_char(&mut out, '#');
            } else {
                return pr_seq_items(items, ctx, nb, "[", "]");
            }
        },
        Form::ArrayMap(items) => {
            if cut {
                push_char(&mut out, '#');
            } else {
                let lifted = if ctx.ns_maps {
                    lifted_ns_exec(items)
                } else {
                    None
                };
                match lifted {
                    Some(ns) => {
                        proof {
                            lemma_forms_view(items@);
                            let fv = forms_view(items@);
                            assert forall|i: int| 0 <= i < items@.len() / 2 implies #[trigger] items@[2 * i]@ is Keyword by {
                                let n0 = fv[0]->Keyword_0.ns.unwrap();
                                assert(n0 == ns@);
                                assert(key_in_ns(fv[2 * i], n0));
                                assert(fv[2 * i] == items@[2 * i]@);
                            }
                        }
                        push_char(&mut out, '#');
                        push_char(&mut out, ':');
                        push_str(&mut out, ns.as_str());
                        let body = pr_map_items(items, ctx, nb, true);
                        push_str(&mut out, body.as_str());
                        proof {
                            assert(out@ =~= seq!['#', ':'] + ns@ + body@);
                        }
                    },
                    None => {
                        return pr_map_items(items, ctx, nb, false);
                    },
                }
            }
        },
        Form::HashSet(items) => {
            if cut {
                push_char(&mut out, '#');
            } else {
                return pr_seq_items(items, ctx, nb, "#{", "}");
            }
        },
        Form::Meta(m, t) => {
            if ctx.meta {
                push_char(&mut out, '^');
                let mt = pr_form(m, ctx, b);
                push_str(&mut out, mt.as_str());
                push_char(&mut out, ' ');
                let tt = pr_form(t, ctx, b);
                push_str(&mut out, tt.as_str());
            } else {
                return pr_form(t, ctx, b);
            }
        },
        _ => {
            return pr_atom(x, ctx);
        },
    }
    out
}

/// [`pr`] of a form that is no collection and carries no metadata.
fn pr_atom(x: &Form, ctx: &PrintCtx) -> (r: String)
    requires
        !(x is List || x is Vector || x is ArrayMap || x is HashSet || x is Meta),
    ensures
        r@ == pr(x@, limit_of(ctx.length), ctx.readable),
{
    let mut out = String::new();
    match x {
        Form::Nil => push_str(&mut out, "nil"),
        Form::Bool(b) => if *b {
            push_str(&mut out, "true")
        } else {
            push_str(&mut out, "false")
        },
        Form::Int(n) => push_i64_decimal(&mut out, *n),
        Form::BigInt(d) => push_str(&mut out, d.as_str()),
        Form::Float(t) => push_str(&mut out, t.as_str()),
        Form::Ratio(n, d) => {
            push_str(&mut out, n.as_str());
            push_char(&mut out, '/');
            push_str(&mut out, d.as_str());
        },
        Form::Str(s) => if ctx.readable {
            return escape_string(s.as_str());
        } else {
            push_str(&mut out, s.as_str())
        },
        Form::Symbol(s) => {
            return sym_text_exec(s);
        },
        Form::Keyword(s) => {
            push_char(&mut out, ':');
            let t = sym_text_exec(s);
            push_str(&mut out, t.as_str());
        },
        Form::Regex(p) => {
            push_char(&mut out, '#');
            push_char(&mut out, '"');
            push_str(&mut out, p.as_str());
            push_char(&mut out, '"');
        },
        Form::Host(t) => push_str(&mut out, t.as_str()),
        _ => {},
    }
    out
}

/// [`pr_at`]: the text of `x` under the print settings `ctx`, at the depth
/// `ctx.depth`.
pub fn pr_str_ctx(x: &Form, ctx: &PrintCtx) -> (r: String)
    ensures
        r@ == pr_at(x@, *ctx, budget_of(*ctx)),
{
    let b: Option<i128> = match ctx.level {
        Some(l) => Some(l as i128 - ctx.depth as i128),
        None => None,
    };
    pr_form(x, ctx, b)
}

/// The readable text of `x` (strings quoted and escaped), collections
/// showing at most `length` items, with no level limit, no metadata and no
/// namespace maps.
pub fn pr_str(x: &Form, length: Option<i64>) -> (r: String)
    ensures
        r@ == pr(x@, limit_of(length), true),
{
    let ctx = PrintCtx { length, level: None, meta: false, ns_maps: false, readable: true, depth: 0 };
    proof {
        lemma_pr_at_plain(x@, ctx);
    }
    pr_str_ctx(x, &ctx)
}

/// The display text of `x` (strings as they are), collections showing at
/// most `length` items, with no level limit, no metadata and no namespace
/// maps.
pub fn print_str(x: &Form, length: Option<i64>) -> (r: String)
    ensures
        r@ == pr(x@, limit_of(length), false),
{
    let ctx = PrintCtx { length, level: None, meta: false, ns_maps: false, readable: false, depth: 0 };
    proof {
        lemma_pr_at_plain(x@, ctx);
    }
    pr_str_ctx(x, &ctx)
}

} // verus!
