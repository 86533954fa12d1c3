//! Printing and reading back: nil, booleans, integers, strings, and
//! keywords and symbols of plain names print as text the reader reads back
//! as the same datum, and so do lists and vectors of such items.

use vstd::prelude::*;
use crate::printer::{entries, escape_body, escape_char, escape_str, join, lemma_pr_items, pr, pr_items, sym_text, with_more};
use crate::reader::context::ReaderContext;
use crate::reader::dispatch::{datum_scan, skip_len, spec_looks_like_number};
use crate::reader::errors::{Coll, Scan};
use crate::reader::form::{FormV, SymV};
use crate::reader::forms::{has_duplicate, is_closer, items_scan, items_scan_from, list_scan, map_scan, set_scan, vector_scan};
use crate::reader::lexer::{spec_is_digit, spec_is_token_terminating, spec_is_whitespace};
use crate::reader::number::{decimal_scan, digit_run, digit_value, digits_value, int_end, number_scan, sign_len};
use crate::reader::string::{string_scan, string_scan_from};
use crate::reader::token::{keyword_scan, symbol_scan, token, token_len};
use crate::text::{decimal, digit_char, first_index, int_decimal, lemma_first_index_from};

verus! {

/// `f` printed in full reads back as `f`, the datum ending where the
/// printed text ends, whatever follows the text as long as that starts
/// with a character that ends a token (or nothing follows).
pub open spec fn reads_back(f: FormV, readable: bool, ctx: ReaderContext) -> bool {
    let text = pr(f, None, readable);
    &&& text.len() > 0
    &&& forall|t: Seq<char>|
        (t.len() == 0 || spec_is_token_terminating(t[0])) ==> #[trigger] datum_scan(text + t, ctx)
            == Scan::Done(f, text.len())
}

/// The parts, each with a space before it.
pub open spec fn spaced(q: Seq<Seq<char>>) -> Seq<char>
    decreases q.len(),
{
    if q.len() == 0 {
        Seq::empty()
    } else {
        spaced(q.drop_last()) + seq![' '] + q.last()
    }
}

proof fn lemma_spaced_front(q: Seq<Seq<char>>)
    requires
        q.len() >= 1,
    ensures
        spaced(q) == seq![' '] + q[0] + spaced(q.drop_first()),
    decreases q.len(),
{
    if q.len() == 1 {
        assert(q.drop_last() =~= Seq::<Seq<char>>::empty());
        assert(q.drop_first() =~= Seq::<Seq<char>>::empty());
        assert(spaced(q) =~= seq![' '] + q[0]);
        assert(spaced(q) =~= seq![' '] + q[0] + spaced(q.drop_first()));
    } else {
        lemma_spaced_front(q.drop_last());
        assert(q.drop_last()[0] == q[0]);
        assert(q.drop_last().drop_first() =~= q.drop_first().drop_last());
        assert(q.drop_first().last() == q.last());
        assert(spaced(q.drop_first()) == spaced(q.drop_first().drop_last()) + seq![' '] + q.drop_first().last());
        assert(spaced(q) =~= seq![' '] + q[0] + spaced(q.drop_first()));
    }
}

/// Joining with spaces splits after the first `m` parts.
proof fn lemma_join_split(parts: Seq<Seq<char>>, m: nat)
    requires
        1 <= m <= parts.len(),
    ensures
        join(parts, seq![' ']) == join(parts.take(m as int), seq![' ']) + spaced(parts.subrange(m as int, parts.len() as int)),
    decreases parts.len(),
{
    let n = parts.len();
    if m == n {
        assert(parts.take(m as int) =~= parts);
        assert(parts.subrange(m as int, n as int) =~= Seq::<Seq<char>>::empty());
        assert(join(parts, seq![' ']) + Seq::<char>::empty() =~= join(parts, seq![' ']));
    } else {
        let d = parts.drop_last();
        lemma_join_split(d, m);
        assert(d.take(m as int) =~= parts.take(m as int));
        let q = parts.subrange(m as int, n as int);
        assert(q.drop_last() =~= d.subrange(m as int, d.len() as int));
        assert(q.last() == parts.last());
        assert(join(parts, seq![' ']) == join(d, seq![' ']) + seq![' '] + parts.last());
        assert(spaced(q) == spaced(q.drop_last()) + seq![' '] + q.last());
        assert(join(parts, seq![' ']) =~= join(parts.take(m as int), seq![' ']) + spaced(q));
    }
}

/// Joining the first `m + 1` parts adds a space and part `m` to joining
/// the first `m`.
proof fn lemma_join_step(parts: Seq<Seq<char>>, m: nat)
    requires
        1 <= m < parts.len(),
    ensures
        join(parts.take(m as int + 1), seq![' ']) == join(parts.take(m as int), seq![' ']) + seq![' '] + parts[m as int],
{
    let a = parts.take(m as int + 1);
    assert(a.drop_last() =~= parts.take(m as int));
    assert(a.last() == parts[m as int]);
}

/// Reading a datum fails on text that starts with whitespace, a comment
/// or a closing delimiter.
proof fn lemma_reads_back_first(f: FormV, readable: bool, ctx: ReaderContext)
    requires
        reads_back(f, readable, ctx),
    ensures
        ({
            let c = pr(f, None, readable)[0];
            !spec_is_whitespace(c) && c != ';' && !is_closer(c)
        }),
{
    let text = pr(f, None, readable);
    assert(text + Seq::<char>::empty() =~= text);
    assert(datum_scan(text + Seq::<char>::empty(), ctx) == Scan::Done(f, text.len()));
    let c = text[0];
    if spec_is_whitespace(c) || c == ';' {
        assert(spec_is_token_terminating(c));
        assert(token_len(text) == 0);
    }
}

/// Each part is non-empty and starts with neither whitespace nor `;`.
pub open spec fn good_parts(parts: Seq<Seq<char>>) -> bool {
    forall|i: int|
        0 <= i < parts.len() ==> #[trigger] parts[i].len() > 0 && !spec_is_whitespace(parts[i][0])
            && parts[i][0] != ';'
}

/// Where the scan of `open + join(parts) + close` stands before part `m`:
/// right after the opener, or right after part `m - 1`.
pub open spec fn part_pos(parts: Seq<Seq<char>>, m: nat) -> nat {
    if m == 0 {
        1
    } else {
        1 + join(parts.take(m as int), seq![' ']).len()
    }
}

/// The text after part `m`: the remaining parts, each after a space, then
/// the closer.
pub open spec fn part_tail(parts: Seq<Seq<char>>, close: char, m: nat) -> Seq<char> {
    spaced(parts.subrange(m as int + 1, parts.len() as int)) + seq![close]
}

proof fn lemma_step_text(parts: Seq<Seq<char>>, open: char, close: char, m: nat)
    requires
        m < parts.len(),
        good_parts(parts),
        !spec_is_whitespace(close),
        close != ';',
    ensures
        ({
            let s = seq![open] + join(parts, seq![' ']) + seq![close];
            let p = part_pos(parts, m);
            let w: nat = if m == 0 {
                0
            } else {
                1
            };
            &&& skip_len(s.skip(p as int)) == w
            &&& p + w < s.len()
            &&& s.skip((p + w) as int) == parts[m as int] + part_tail(parts, close, m)
            &&& p + w + parts[m as int].len() == part_pos(parts, m + 1)
            &&& part_tail(parts, close, m).len() > 0
            &&& (part_tail(parts, close, m)[0] == ' ' || part_tail(parts, close, m)[0] == close)
        }),
{
    let n = parts.len();
    let jn = join(parts, seq![' ']);
    let s = seq![open] + jn + seq![close];
    let p = part_pos(parts, m);
    let part = parts[m as int];
    let tail = part_tail(parts, close, m);
    assert(part.len() > 0 && !spec_is_whitespace(part[0]) && part[0] != ';');
    if m + 1 < n {
        lemma_spaced_front(parts.subrange(m as int + 1, n as int));
        assert(tail[0] == ' ');
    } else {
        assert(parts.subrange(m as int + 1, n as int) =~= Seq::<Seq<char>>::empty());
        assert(tail =~= seq![close]);
    }
    assert((part + tail)[0] == part[0]);
    assert(skip_len(part + tail) == 0);
    if m == 0 {
        if n >= 2 {
            lemma_join_split(parts, 1);
        } else {
            assert(parts.subrange(1, n as int) =~= Seq::<Seq<char>>::empty());
        }
        assert(parts.take(1) =~= seq![parts[0]]);
        assert(join(parts.take(1), seq![' ']) == parts[0]);
        assert(jn =~= part + spaced(parts.subrange(1, n as int)));
        assert(s.skip(1) =~= part + tail);
    } else {
        lemma_join_split(parts, m);
        let q = parts.subrange(m as int, n as int);
        lemma_spaced_front(q);
        assert(q.drop_first() =~= parts.subrange(m as int + 1, n as int));
        assert(s.skip(p as int) =~= seq![' '] + (part + tail));
        assert((seq![' '] + (part + tail)).drop_first() =~= part + tail);
        assert(spec_is_whitespace(' '));
        assert(skip_len(s.skip(p as int)) == 1);
        assert(s.skip((p + 1) as int) =~= part + tail);
        lemma_join_step(parts, m);
    }
}

proof fn lemma_end_text(parts: Seq<Seq<char>>, open: char, close: char)
    requires
        !spec_is_whitespace(close),
        close != ';',
    ensures
        ({
            let s = seq![open] + join(parts, seq![' ']) + seq![close];
            let p = part_pos(parts, parts.len());
            &&& s.skip(p as int) == seq![close]
            &&& skip_len(s.skip(p as int)) == 0
            &&& p + 1 == s.len()
            &&& s[p as int] == close
        }),
{
    let n = parts.len();
    let s = seq![open] + join(parts, seq![' ']) + seq![close];
    if n == 0 {
        assert(join(parts, seq![' ']) =~= Seq::<char>::empty());
    } else {
        assert(parts.take(n as int) =~= parts);
    }
    assert(s.skip(part_pos(parts, n) as int) =~= seq![close]);
}

/// The item scan from item `m` on reads the rest of the items.
#[verifier::spinoff_prover]
#[verifier::rlimit(50)]
proof fn lemma_items_from(
    items: Seq<FormV>,
    readable: bool,
    ctx: ReaderContext,
    open: char,
    close: char,
    kind: Coll,
    m: nat,
)
    requires
        is_closer(close),
        m <= items.len(),
        forall|i: int| 0 <= i < items.len() ==> #[trigger] reads_back(items[i], readable, ctx),
    ensures
        items_scan_from(
            seq![open] + join(pr_items(items, None, readable), seq![' ']) + seq![close],
            ctx,
            close,
            kind,
            part_pos(pr_items(items, None, readable), m),
            items.take(m as int),
        ) == Scan::Done(
            FormV::List(items),
            (seq![open] + join(pr_items(items, None, readable), seq![' ']) + seq![close]).len(),
        ),
    decreases items.len() - m,
{
    let n = items.len();
    let parts = pr_items(items, None, readable);
    lemma_pr_items(items, None, readable);
    let s = seq![open] + join(parts, seq![' ']) + seq![close];
    let p = part_pos(parts, m);
    assert forall|i: int| 0 <= i < parts.len() implies #[trigger] parts[i].len() > 0 && !spec_is_whitespace(parts[i][0])
        && parts[i][0] != ';' by {
        assert(reads_back(items[i], readable, ctx));
        assert(parts[i] == pr(items[i], None, readable));
        lemma_reads_back_first(items[i], readable, ctx);
    }
    if m == n {
        lemma_end_text(parts, open, close);
        assert(items.take(m as int) =~= items);
    } else {
        lemma_step_text(parts, open, close, m);
        lemma_reads_back_first(items[m as int], readable, ctx);
        let w: nat = if m == 0 {
            0
        } else {
            1
        };
        let part = parts[m as int];
        let tail = part_tail(parts, close, m);
        assert(spec_is_token_terminating(tail[0]));
        assert(reads_back(items[m as int], readable, ctx));
        assert(part == pr(items[m as int], None, readable));
        assert(datum_scan(pr(items[m as int], None, readable) + tail, ctx) == Scan::Done(
            items[m as int],
            pr(items[m as int], None, readable).len(),
        ));
        assert(datum_scan(part + tail, ctx) == Scan::Done(items[m as int], part.len()));
        assert(s[(p + w) as int] == part[0]);
        assert(items.take(m as int).push(items[m as int]) =~= items.take(m as int + 1));
        lemma_items_from(items, readable, ctx, open, close, kind, m + 1);
    }
}

/// A list whose items each read back prints as text that the list reader
/// reads back as the same list, ending where the text ends.
pub proof fn law_list_print_read_roundtrip(items: Seq<FormV>, readable: bool, ctx: ReaderContext)
    requires
        forall|i: int| 0 <= i < items.len() ==> #[trigger] reads_back(items[i], readable, ctx),
    ensures
        list_scan(pr(FormV::List(items), None, readable), ctx) == Scan::Done(
            FormV::List(items),
            pr(FormV::List(items), None, readable).len(),
        ),
{
    lemma_pr_items(items, None, readable);
    let parts = pr_items(items, None, readable);
    assert(with_more(parts, items.len(), None) =~= parts);
    lemma_items_from(items, readable, ctx, '(', ')', Coll::List, 0);
    assert(items.take(0) =~= Seq::<FormV>::empty());
}

/// A vector whose items each read back prints as text that the vector
/// reader reads back as the same vector, ending where the text ends.
pub proof fn law_vector_print_read_roundtrip(items: Seq<FormV>, readable: bool, ctx: ReaderContext)
    requires
        forall|i: int| 0 <= i < items.len() ==> #[trigger] reads_back(items[i], readable, ctx),
    ensures
        vector_scan(pr(FormV::Vector(items), None, readable), ctx) == Scan::Done(
            FormV::Vector(items),
            pr(FormV::Vector(items), None, readable).len(),
        ),
{
    lemma_pr_items(items, None, readable);
    let parts = pr_items(items, None, readable);
    assert(with_more(parts, items.len(), None) =~= parts);
    lemma_items_from(items, readable, ctx, '[', ']', Coll::Vector, 0);
    assert(items.take(0) =~= Seq::<FormV>::empty());
    assert(items_scan(pr(FormV::Vector(items), None, readable), ctx, ']', Coll::Vector) == Scan::Done(
        FormV::List(items),
        pr(FormV::Vector(items), None, readable).len(),
    ));
}

/// Text none of whose characters ends a token.
pub open spec fn token_text(s: Seq<char>) -> bool {
    forall|i: int| 0 <= i < s.len() ==> !spec_is_token_terminating(#[trigger] s[i])
}

proof fn lemma_escape_body_append(a: Seq<char>, b: Seq<char>)
    ensures
        escape_body(a + b) == escape_body(a) + escape_body(b),
    decreases b.len(),
{
    if b.len() == 0 {
        assert(a + b =~= a);
        assert(escape_body(a) + escape_body(b) =~= escape_body(a));
    } else {
        lemma_escape_body_append(a, b.drop_last());
        assert((a + b).drop_last() =~= a + b.drop_last());
        assert((a + b).last() == b.last());
        assert(escape_body(a) + escape_body(b.drop_last()) + escape_char(b.last()) =~= escape_body(a)
            + escape_body(b));
    }
}

#[verifier::spinoff_prover]
#[verifier::rlimit(50)]
proof fn lemma_string_roundtrip_from(s: Seq<char>, t: Seq<char>, k: nat)
    requires
        k <= s.len(),
    ensures
        string_scan_from(escape_str(s) + t, 1 + escape_body(s.take(k as int)).len(), s.take(k as int))
            == Scan::Done(FormV::Str(s), escape_str(s).len()),
    decreases s.len() - k,
{
    let e = escape_str(s);
    let u = e + t;
    let head = escape_body(s.take(k as int));
    let p: nat = 1 + head.len();
    lemma_escape_body_append(s.take(k as int), s.skip(k as int));
    assert(s.take(k as int) + s.skip(k as int) =~= s);
    assert(e =~= seq!['"'] + head + escape_body(s.skip(k as int)) + seq!['"']);
    if k == s.len() {
        assert(s.skip(k as int) =~= Seq::<char>::empty());
        assert(escape_body(Seq::<char>::empty()) =~= Seq::<char>::empty());
        assert(e[p as int] == '"');
        assert(u[p as int] == e[p as int]);
        assert(s.take(k as int) =~= s);
    } else {
        let c = s[k as int];
        assert(s.skip(k as int) =~= seq![c] + s.skip((k + 1) as int));
        lemma_escape_body_append(seq![c], s.skip((k + 1) as int));
        assert(seq![c].drop_last() =~= Seq::<char>::empty());
        assert(seq![c].last() == c);
        assert(escape_body(Seq::<char>::empty()) =~= Seq::<char>::empty());
        assert(escape_body(seq![c]) =~= escape_body(seq![c].drop_last()) + escape_char(c));
        assert(escape_body(seq![c]) =~= escape_char(c));
        assert(s.take((k + 1) as int) =~= s.take(k as int) + seq![c]);
        lemma_escape_body_append(s.take(k as int), seq![c]);
        let ec = escape_char(c);
        assert(e =~= seq!['"'] + head + ec + escape_body(s.skip((k + 1) as int)) + seq!['"']);
        assert(e[p as int] == ec[0]);
        assert(u[p as int] == e[p as int]);
        if ec.len() == 2 {
            assert(e[(p + 1) as int] == ec[1]);
            assert(u[(p + 1) as int] == e[(p + 1) as int]);
        }
        assert(s.take(k as int).push(c) =~= s.take((k + 1) as int));
        lemma_string_roundtrip_from(s, t, k + 1);
    }
}

proof fn lemma_digit_char(d: nat)
    requires
        d < 10,
    ensures
        spec_is_digit(digit_char(d)),
        digit_value(digit_char(d)) == d,
{
}

proof fn lemma_decimal_digits(m: nat)
    ensures
        decimal(m).len() >= 1,
        forall|i: int| 0 <= i < decimal(m).len() ==> spec_is_digit(#[trigger] decimal(m)[i]),
        digits_value(decimal(m)) == m,
    decreases m,
{
    if m >= 10 {
        lemma_decimal_digits(m / 10);
        lemma_digit_char(m % 10);
        let d = decimal(m / 10);
        let c = digit_char(m % 10);
        assert(decimal(m) == d.push(c));
        assert(decimal(m).drop_last() =~= d);
        assert(decimal(m).last() == c);
        assert((m / 10) * 10 + m % 10 == m) by (nonlinear_arith);
        assert forall|i: int| 0 <= i < decimal(m).len() implies spec_is_digit(#[trigger] decimal(m)[i]) by {
            if i < d.len() {
                assert(decimal(m)[i] == d[i]);
            }
        }
    } else {
        lemma_digit_char(m);
        assert(decimal(m) == seq![digit_char(m)]);
        assert(seq![digit_char(m)].drop_last() =~= Seq::<char>::empty());
        assert(digits_value(Seq::<char>::empty()) == 0);
    }
}

/// A set of distinct items that each read back prints as `#` followed by
/// text that the set reader reads back as the same set, ending where the
/// text ends.
pub proof fn law_set_print_read_roundtrip(items: Seq<FormV>, readable: bool, ctx: ReaderContext)
    requires
        forall|i: int| 0 <= i < items.len() ==> #[trigger] reads_back(items[i], readable, ctx),
        !has_duplicate(items),
    ensures
        pr(FormV::HashSet(items), None, readable)[0] == '#',
        set_scan(pr(FormV::HashSet(items), None, readable).skip(1), ctx) == Scan::Done(
            FormV::HashSet(items),
            (pr(FormV::HashSet(items), None, readable).len() - 1) as nat,
        ),
{
    lemma_pr_items(items, None, readable);
    let parts = pr_items(items, None, readable);
    assert(with_more(parts, items.len(), None) =~= parts);
    let text = pr(FormV::HashSet(items), None, readable);
    let body = seq!['{'] + join(parts, seq![' ']) + seq!['}'];
    assert(text == seq!['#', '{'] + join(parts, seq![' ']) + seq!['}']);
    assert(text.skip(1) =~= body);
    lemma_items_from(items, readable, ctx, '{', '}', Coll::HashSet, 0);
    assert(items.take(0) =~= Seq::<FormV>::empty());
    assert(items_scan(body, ctx, '}', Coll::HashSet) == Scan::Done(FormV::List(items), body.len()));
}

/// What comes before part `i` of a printed map (for `i > 0`): a space
/// between a key and its value, a comma and a space between entries.
pub open spec fn map_sep(i: int) -> Seq<char> {
    if i % 2 == 1 {
        seq![' ']
    } else {
        seq![',', ' ']
    }
}

/// The first `e` parts of a printed map with their separators.
pub open spec fn map_text(parts: Seq<Seq<char>>, e: nat) -> Seq<char>
    decreases e,
{
    if e == 0 {
        Seq::empty()
    } else if e == 1 {
        parts[0]
    } else {
        map_text(parts, (e - 1) as nat) + map_sep(e - 1) + parts[e - 1]
    }
}

/// Parts `m` to `e` of a printed map, each after its separator.
pub open spec fn map_rest(parts: Seq<Seq<char>>, m: nat, e: nat) -> Seq<char>
    decreases e - m,
{
    if m >= e {
        Seq::empty()
    } else {
        map_sep(m as int) + parts[m as int] + map_rest(parts, m + 1, e)
    }
}

proof fn lemma_map_rest_back(parts: Seq<Seq<char>>, m: nat, e: nat)
    requires
        m <= e,
    ensures
        map_rest(parts, m, e + 1) == map_rest(parts, m, e) + map_sep(e as int) + parts[e as int],
    decreases e - m,
{
    if m == e {
        assert(map_rest(parts, m + 1, e + 1) == Seq::<char>::empty());
        assert(map_rest(parts, m, e) == Seq::<char>::empty());
        assert(map_rest(parts, m, e + 1) =~= map_rest(parts, m, e) + map_sep(e as int) + parts[e as int]);
    } else {
        lemma_map_rest_back(parts, m + 1, e);
        assert(map_rest(parts, m, e + 1) =~= map_rest(parts, m, e) + map_sep(e as int) + parts[e as int]);
    }
}

proof fn lemma_map_text_split(parts: Seq<Seq<char>>, m: nat, e: nat)
    requires
        1 <= m <= e,
    ensures
        map_text(parts, e) == map_text(parts, m) + map_rest(parts, m, e),
    decreases e,
{
    if e == m {
        assert(map_rest(parts, m, e) == Seq::<char>::empty());
        assert(map_text(parts, e) =~= map_text(parts, m) + map_rest(parts, m, e));
    } else {
        lemma_map_text_split(parts, m, (e - 1) as nat);
        lemma_map_rest_back(parts, m, (e - 1) as nat);
        assert(map_text(parts, e) =~= map_text(parts, m) + map_rest(parts, m, e));
    }
}

proof fn lemma_map_join(parts: Seq<Seq<char>>, k: nat)
    requires
        2 * k <= parts.len(),
    ensures
        join(entries(parts).take(k as int), seq![',', ' ']) == map_text(parts, 2 * k),
    decreases k,
{
    let es = entries(parts);
    if k == 0 {
        assert(es.take(0) =~= Seq::<Seq<char>>::empty());
    } else if k == 1 {
        assert(es.take(1) =~= seq![es[0]]);
        assert(map_text(parts, 1) == parts[0]);
        assert(map_text(parts, 2) =~= parts[0] + seq![' '] + parts[1]);
    } else {
        lemma_map_join(parts, (k - 1) as nat);
        let t = es.take(k as int);
        assert(t.drop_last() =~= es.take(k - 1));
        assert(t.last() == parts[2 * k - 2] + seq![' '] + parts[2 * k - 1]);
        assert(map_sep(2 * k - 2) == seq![',', ' ']);
        assert(map_sep(2 * k - 1) == seq![' ']);
        assert(map_text(parts, (2 * k - 1) as nat) == map_text(parts, (2 * k - 2) as nat) + map_sep(2 * k - 2)
            + parts[2 * k - 2]);
        assert(join(t, seq![',', ' ']) =~= map_text(parts, 2 * k));
    }
}

/// Where the scan of `{` + the map text + `}` stands before part `m`.
pub open spec fn map_pos(parts: Seq<Seq<char>>, m: nat) -> nat {
    1 + map_text(parts, m).len()
}

proof fn lemma_skip_sep(sep: Seq<char>, x: Seq<char>)
    requires
        sep == seq![' '] || sep == seq![',', ' '],
        x.len() > 0,
        !spec_is_whitespace(x[0]),
        x[0] != ';',
    ensures
        skip_len(sep + x) == sep.len(),
{
    assert(skip_len(x) == 0);
    let y = seq![' '] + x;
    assert(y[0] == ' ');
    assert(spec_is_whitespace(' '));
    assert(y.drop_first() =~= x);
    assert(skip_len(y) == 1 + skip_len(y.drop_first()));
    assert(skip_len(y) == 1);
    if sep.len() == 1 {
        assert(sep + x =~= y);
    } else {
        let z = sep + x;
        assert(z[0] == ',');
        assert(spec_is_whitespace(','));
        assert(z.drop_first() =~= y);
        assert(skip_len(z) == 1 + skip_len(z.drop_first()));
    }
}

proof fn lemma_map_tail(parts: Seq<Seq<char>>, m: nat)
    requires
        m < parts.len(),
    ensures
        ({
            let tail = map_rest(parts, m + 1, parts.len()) + seq!['}'];
            tail.len() > 0 && (tail[0] == ' ' || tail[0] == ',' || tail[0] == '}')
        }),
{
    let n = parts.len();
    let tail = map_rest(parts, m + 1, n) + seq!['}'];
    if m + 1 < n {
        assert(map_rest(parts, m + 1, n) == map_sep(m + 1 as int) + parts[m + 1 as int] + map_rest(parts, m + 2, n));
        assert(tail[0] == map_sep(m + 1 as int)[0]);
    } else {
        assert(map_rest(parts, m + 1, n) == Seq::<char>::empty());
        assert(tail =~= seq!['}']);
    }
}

proof fn lemma_map_step_first(parts: Seq<Seq<char>>)
    requires
        0 < parts.len(),
        good_parts(parts),
    ensures
        ({
            let n = parts.len();
            let s = seq!['{'] + map_text(parts, n) + seq!['}'];
            let tail = map_rest(parts, 1, n) + seq!['}'];
            &&& skip_len(s.skip(1)) == 0
            &&& s.skip(1) == parts[0] + tail
            &&& 1 + (parts[0] + tail).len() == s.len()
            &&& map_pos(parts, 0) == 1
            &&& 1 + parts[0].len() == map_pos(parts, 1)
        }),
{
    let n = parts.len();
    let s = seq!['{'] + map_text(parts, n) + seq!['}'];
    let part = parts[0];
    let tail = map_rest(parts, 1, n) + seq!['}'];
    assert(part.len() > 0 && !spec_is_whitespace(part[0]) && part[0] != ';');
    if n >= 2 {
        lemma_map_text_split(parts, 1, n);
    } else {
        assert(map_rest(parts, 1, n) == Seq::<char>::empty());
    }
    assert(map_text(parts, 1) == parts[0]);
    assert(map_text(parts, n) =~= part + map_rest(parts, 1, n));
    assert(s.skip(1) =~= part + tail);
    assert((part + tail)[0] == part[0]);
    assert(skip_len(part + tail) == 0);
    assert(map_text(parts, 0) == Seq::<char>::empty());
}

proof fn lemma_map_step_later(parts: Seq<Seq<char>>, m: nat)
    requires
        0 < m < parts.len(),
        good_parts(parts),
    ensures
        ({
            let n = parts.len();
            let s = seq!['{'] + map_text(parts, n) + seq!['}'];
            let p = map_pos(parts, m);
            let w = map_sep(m as int).len();
            let tail = map_rest(parts, m + 1, n) + seq!['}'];
            &&& skip_len(s.skip(p as int)) == w
            &&& s.skip((p + w) as int) == parts[m as int] + tail
            &&& p + w + (parts[m as int] + tail).len() == s.len()
            &&& p + w + parts[m as int].len() == map_pos(parts, m + 1)
        }),
{
    let n = parts.len();
    let s = seq!['{'] + map_text(parts, n) + seq!['}'];
    let part = parts[m as int];
    let tail = map_rest(parts, m + 1, n) + seq!['}'];
    assert(part.len() > 0 && !spec_is_whitespace(part[0]) && part[0] != ';');
    assert((part + tail)[0] == part[0]);
    lemma_map_text_split(parts, m, n);
    let sep = map_sep(m as int);
    assert(map_rest(parts, m, n) == sep + part + map_rest(parts, m + 1, n));
    assert(s.skip(map_pos(parts, m) as int) =~= sep + (part + tail));
    lemma_skip_sep(sep, part + tail);
    assert(s.skip((map_pos(parts, m) + sep.len()) as int) =~= part + tail);
    assert(map_text(parts, m + 1) == map_text(parts, m) + sep + part);
}

proof fn lemma_map_step_text(parts: Seq<Seq<char>>, m: nat)
    requires
        m < parts.len(),
        good_parts(parts),
    ensures
        ({
            let n = parts.len();
            let s = seq!['{'] + map_text(parts, n) + seq!['}'];
            let p = map_pos(parts, m);
            let w: nat = if m == 0 {
                0
            } else {
                map_sep(m as int).len()
            };
            let tail = map_rest(parts, m + 1, n) + seq!['}'];
            &&& skip_len(s.skip(p as int)) == w
            &&& p + w < s.len()
            &&& s.skip((p + w) as int) == parts[m as int] + tail
            &&& p + w + parts[m as int].len() == map_pos(parts, m + 1)
            &&& tail.len() > 0
            &&& (tail[0] == ' ' || tail[0] == ',' || tail[0] == '}')
        }),
{
    lemma_map_tail(parts, m);
    if m == 0 {
        lemma_map_step_first(parts);
    } else {
        lemma_map_step_later(parts, m);
    }
}

proof fn lemma_map_end_text(parts: Seq<Seq<char>>)
    ensures
        ({
            let n = parts.len();
            let s = seq!['{'] + map_text(parts, n) + seq!['}'];
            let p = map_pos(parts, n);
            &&& s.skip(p as int) == seq!['}']
            &&& skip_len(s.skip(p as int)) == 0
            &&& p + 1 == s.len()
            &&& s[p as int] == '}'
        }),
{
    let n = parts.len();
    let s = seq!['{'] + map_text(parts, n) + seq!['}'];
    assert(s.skip(map_pos(parts, n) as int) =~= seq!['}']);
}

#[verifier::spinoff_prover]
#[verifier::rlimit(50)]
proof fn lemma_map_items_from(items: Seq<FormV>, readable: bool, ctx: ReaderContext, m: nat)
    requires
        m <= items.len(),
        forall|i: int| 0 <= i < items.len() ==> #[trigger] reads_back(items[i], readable, ctx),
    ensures
        items_scan_from(
            seq!['{'] + map_text(pr_items(items, None, readable), items.len()) + seq!['}'],
            ctx,
            '}',
            Coll::ArrayMap,
            map_pos(pr_items(items, None, readable), m),
            items.take(m as int),
        ) == Scan::Done(
            FormV::List(items),
            (seq!['{'] + map_text(pr_items(items, None, readable), items.len()) + seq!['}']).len(),
        ),
    decreases items.len() - m,
{
    let n = items.len();
    let parts = pr_items(items, None, readable);
    lemma_pr_items(items, None, readable);
    let s = seq!['{'] + map_text(parts, n) + seq!['}'];
    let p = map_pos(parts, m);
    assert forall|i: int| 0 <= i < parts.len() implies #[trigger] parts[i].len() > 0 && !spec_is_whitespace(parts[i][0])
        && parts[i][0] != ';' by {
        assert(reads_back(items[i], readable, ctx));
        assert(parts[i] == pr(items[i], None, readable));
        lemma_reads_back_first(items[i], readable, ctx);
    }
    if m == n {
        lemma_map_end_text(parts);
        assert(items.take(m as int) =~= items);
    } else {
        lemma_map_step_text(parts, m);
        lemma_reads_back_first(items[m as int], readable, ctx);
        let w: nat = if m == 0 {
            0
        } else {
            map_sep(m as int).len()
        };
        let part = parts[m as int];
        let tail = map_rest(parts, m + 1, n) + seq!['}'];
        assert(spec_is_whitespace(' ') && spec_is_whitespace(','));
        assert(spec_is_token_terminating(tail[0]));
        assert(reads_back(items[m as int], readable, ctx));
        assert(part == pr(items[m as int], None, readable));
        assert(datum_scan(pr(items[m as int], None, readable) + tail, ctx) == Scan::Done(
            items[m as int],
            pr(items[m as int], None, readable).len(),
        ));
        assert(datum_scan(part + tail, ctx) == Scan::Done(items[m as int], part.len()));
        assert(s[(p + w) as int] == part[0]);
        assert(items.take(m as int).push(items[m as int]) =~= items.take(m as int + 1));
        lemma_map_items_from(items, readable, ctx, m + 1);
    }
}

/// A map, given as its keys and values in turn, whose keys and values
/// each read back prints as text that the map reader reads back as the
/// same map, ending where the text ends.
pub proof fn law_map_print_read_roundtrip(items: Seq<FormV>, readable: bool, ctx: ReaderContext)
    requires
        items.len() % 2 == 0,
        forall|i: int| 0 <= i < items.len() ==> #[trigger] reads_back(items[i], readable, ctx),
    ensures
        map_scan(pr(FormV::ArrayMap(items), None, readable), ctx) == Scan::Done(
            FormV::ArrayMap(items),
            pr(FormV::ArrayMap(items), None, readable).len(),
        ),
{
    lemma_pr_items(items, None, readable);
    let parts = pr_items(items, None, readable);
    let k = (items.len() / 2) as nat;
    assert(entries(parts).len() == k);
    assert(with_more(entries(parts), k, None) =~= entries(parts).take(k as int));
    lemma_map_join(parts, k);
    assert(2 * k == items.len());
    let text = pr(FormV::ArrayMap(items), None, readable);
    assert(text == seq!['{'] + map_text(parts, items.len()) + seq!['}']);
    lemma_map_items_from(items, readable, ctx, 0);
    assert(map_text(parts, 0) == Seq::<char>::empty());
    assert(items.take(0) =~= Seq::<FormV>::empty());
}

/// A character that ends a token is no digit.
proof fn lemma_terminating_not_digit(c: char)
    requires
        spec_is_token_terminating(c),
    ensures
        !spec_is_digit(c),
        c != '.',
        c != '/',
        c != 'e',
        c != 'E',
{
}

/// What may follow a datum's text: nothing, or a character ending a token.
pub open spec fn ends_token(t: Seq<char>) -> bool {
    t.len() == 0 || spec_is_token_terminating(t[0])
}

proof fn lemma_token_prefix(a: Seq<char>, b: Seq<char>)
    requires
        token_text(a),
        ends_token(b),
    ensures
        token_len(a + b) == a.len(),
        token(a + b) == a,
    decreases a.len(),
{
    if a.len() == 0 {
        assert(a + b =~= b);
        if b.len() > 0 {
            assert(spec_is_token_terminating(b[0]));
        }
    } else {
        let a1 = a.drop_first();
        assert forall|i: int| 0 <= i < a1.len() implies !spec_is_token_terminating(#[trigger] a1[i]) by {
            assert(a1[i] == a[i + 1]);
        }
        lemma_token_prefix(a1, b);
        assert((a + b).drop_first() =~= a1 + b);
        assert((a + b)[0] == a[0]);
        assert(!spec_is_token_terminating(a[0]));
    }
    assert((a + b).take(a.len() as int) =~= a);
}

proof fn lemma_digit_run_prefix(a: Seq<char>, b: Seq<char>)
    requires
        forall|i: int| 0 <= i < a.len() ==> spec_is_digit(#[trigger] a[i]),
        b.len() == 0 || !spec_is_digit(b[0]),
    ensures
        digit_run(a + b) == a.len(),
    decreases a.len(),
{
    if a.len() == 0 {
        assert(a + b =~= b);
    } else {
        let a1 = a.drop_first();
        assert forall|i: int| 0 <= i < a1.len() implies spec_is_digit(#[trigger] a1[i]) by {
            assert(a1[i] == a[i + 1]);
        }
        lemma_digit_run_prefix(a1, b);
        assert((a + b).drop_first() =~= a1 + b);
        assert((a + b)[0] == a[0]);
    }
}

/// `nil`, `true` and `false` read back.
pub proof fn lemma_literal_reads_back(f: FormV, readable: bool, ctx: ReaderContext)
    requires
        f is Nil || f is Bool,
    ensures
        reads_back(f, readable, ctx),
{
    reveal_strlit("nil");
    reveal_strlit("true");
    reveal_strlit("false");
    let text = pr(f, None, readable);
    assert forall|i: int| 0 <= i < text.len() implies !spec_is_token_terminating(#[trigger] text[i]) by {}
    assert forall|t: Seq<char>| ends_token(t) implies #[trigger] datum_scan(text + t, ctx) == Scan::Done(f, text.len()) by {
        lemma_token_prefix(text, t);
        assert((text + t)[0] == text[0]);
        assert(symbol_scan(text + t) == Scan::Done(f, text.len()));
    }
}

/// A readable string reads back.
pub proof fn lemma_string_reads_back(s: Seq<char>, ctx: ReaderContext)
    ensures
        reads_back(FormV::Str(s), true, ctx),
{
    let text = pr(FormV::Str(s), None, true);
    assert(text == escape_str(s));
    assert forall|t: Seq<char>| ends_token(t) implies #[trigger] datum_scan(text + t, ctx) == Scan::Done(
        FormV::Str(s),
        text.len(),
    ) by {
        lemma_string_roundtrip_from(s, t, 0);
        assert(s.take(0) =~= Seq::<char>::empty());
        assert(escape_body(Seq::<char>::empty()) =~= Seq::<char>::empty());
        assert((text + t)[0] == '"');
        assert(string_scan(text + t) == Scan::Done(FormV::Str(s), text.len()));
    }
}

/// An integer reads back.
pub proof fn lemma_int_reads_back(n: i64, readable: bool, ctx: ReaderContext)
    ensures
        reads_back(FormV::Int(n), readable, ctx),
{
    let text = pr(FormV::Int(n), None, readable);
    assert(text == int_decimal(n as int));
    assert forall|t: Seq<char>| ends_token(t) implies #[trigger] datum_scan(text + t, ctx) == Scan::Done(
        FormV::Int(n),
        text.len(),
    ) by {
        let u = text + t;
        if t.len() > 0 {
            lemma_terminating_not_digit(t[0]);
        }
        if n < 0 {
            let m = (-n) as nat;
            lemma_decimal_digits(m);
            let d = decimal(m);
            assert(text == seq!['-'] + d);
            assert(u[0] == '-');
            assert(u[1] == d[0]);
            assert(sign_len(u) == 1);
            assert(u.skip(1) =~= d + t);
            lemma_digit_run_prefix(d, t);
            assert(int_end(u) == text.len());
            assert(u.subrange(1, text.len() as int) =~= d);
            assert(number_scan(u) == decimal_scan(u));
        } else {
            let m = n as nat;
            lemma_decimal_digits(m);
            let d = decimal(m);
            assert(text == d);
            assert(u[0] == d[0]);
            assert(spec_is_digit(u[0]));
            assert(sign_len(u) == 0);
            assert(u.skip(0) =~= d + t);
            lemma_digit_run_prefix(d, t);
            assert(int_end(u) == text.len());
            assert(u.subrange(0, text.len() as int) =~= d);
            assert(number_scan(u) == decimal_scan(u));
        }
        assert(spec_looks_like_number(u));
    }
}

/// Keyword text read back: see [`law_keyword_print_read_roundtrip`] for
/// the conditions.
pub open spec fn keyword_reads_back_ok(ns: Option<Seq<char>>, name: Seq<char>) -> bool {
    &&& name.len() > 0
    &&& token_text(name)
    &&& match ns {
        Some(n) => n.len() > 0 && token_text(n) && !n.contains('/') && n[0] != ':',
        None => !name.contains('/') && name[0] != ':',
    }
}

/// Symbol text read back: see [`law_symbol_print_read_roundtrip`] for the
/// conditions.
pub open spec fn symbol_reads_back_ok(ns: Option<Seq<char>>, name: Seq<char>) -> bool {
    let text = sym_text(SymV { ns, name });
    &&& name.len() > 0
    &&& token_text(name)
    &&& !spec_looks_like_number(text)
    &&& text[0] != '#'
    &&& text[0] != ':'
    &&& text[0] != '\''
    &&& match ns {
        Some(n) => n.len() > 0 && token_text(n) && !n.contains('/'),
        None => (!name.contains('/') || name == "/"@) && name != "nil"@ && name != "true"@ && name
            != "false"@,
    }
}

/// `ns/name` (or `name`) is token text and its first `/` is the one after
/// the namespace (there is none without a namespace, unless the name is `/`).
proof fn lemma_sym_text_shape(ns: Option<Seq<char>>, name: Seq<char>)
    requires
        name.len() > 0,
        token_text(name),
        match ns {
            Some(n) => n.len() > 0 && token_text(n) && !n.contains('/'),
            None => true,
        },
    ensures
        token_text(sym_text(SymV { ns, name })),
        sym_text(SymV { ns, name }).len() > 0,
        match ns {
            Some(n) => first_index(sym_text(SymV { ns, name }), '/') == Some(n.len()) && sym_text(
                SymV { ns, name },
            ).take(n.len() as int) == n && sym_text(SymV { ns, name }).skip((n.len() + 1) as int) == name,
            None => sym_text(SymV { ns, name }) == name && (!name.contains('/') ==> first_index(
                name,
                '/',
            ) is None),
        },
{
    let text = sym_text(SymV { ns, name });
    lemma_first_index_from(text, '/', 0);
    match ns {
        Some(n) => {
            assert(text == n + seq!['/'] + name);
            assert forall|i: int| 0 <= i < text.len() implies !spec_is_token_terminating(#[trigger] text[i]) by {
                if i < n.len() {
                    assert(text[i] == n[i]);
                } else if i > n.len() {
                    assert(text[i] == name[i - n.len() - 1]);
                } else {
                    assert(text[i] == '/');
                }
            }
            assert(text[n.len() as int] == '/');
            match first_index(text, '/') {
                Some(i) => {
                    if i < n.len() {
                        assert(text[i as int] == n[i as int]);
                        assert(n.contains('/'));
                    }
                },
                None => {},
            }
            assert(text.take(n.len() as int) =~= n);
            assert(text.skip((n.len() + 1) as int) =~= name);
        },
        None => {
            if !name.contains('/') {
                match first_index(name, '/') {
                    Some(i) => {
                        assert(name.contains('/'));
                    },
                    None => {},
                }
            }
        },
    }
}

/// A keyword meeting [`keyword_reads_back_ok`] reads back.
pub proof fn lemma_keyword_reads_back(ns: Option<Seq<char>>, name: Seq<char>, readable: bool, ctx: ReaderContext)
    requires
        keyword_reads_back_ok(ns, name),
    ensures
        reads_back(FormV::Keyword(SymV { ns, name }), readable, ctx),
{
    let f = FormV::Keyword(SymV { ns, name });
    let body = sym_text(SymV { ns, name });
    let text = pr(f, None, readable);
    assert(text == seq![':'] + body);
    lemma_sym_text_shape(ns, name);
    match ns {
        Some(n) => {
            assert(body[0] == n[0]);
        },
        None => {},
    }
    assert forall|t: Seq<char>| ends_token(t) implies #[trigger] datum_scan(text + t, ctx) == Scan::Done(
        f,
        text.len(),
    ) by {
        let u = text + t;
        lemma_token_prefix(body, t);
        assert(u.skip(1) =~= body + t);
        assert(u[0] == ':');
        assert(u[1] == body[0]);
        assert(keyword_scan(u, ctx) == Scan::Done(f, text.len()));
    }
}

/// A symbol meeting [`symbol_reads_back_ok`] reads back.
pub proof fn lemma_symbol_reads_back(ns: Option<Seq<char>>, name: Seq<char>, readable: bool, ctx: ReaderContext)
    requires
        symbol_reads_back_ok(ns, name),
    ensures
        reads_back(FormV::Symbol(SymV { ns, name }), readable, ctx),
{
    let f = FormV::Symbol(SymV { ns, name });
    let text = pr(f, None, readable);
    assert(text == sym_text(SymV { ns, name }));
    lemma_sym_text_shape(ns, name);
    reveal_strlit("nil");
    reveal_strlit("true");
    reveal_strlit("false");
    reveal_strlit("/");
    assert forall|t: Seq<char>| ends_token(t) implies #[trigger] datum_scan(text + t, ctx) == Scan::Done(
        f,
        text.len(),
    ) by {
        let u = text + t;
        lemma_token_prefix(text, t);
        assert(u[0] == text[0]);
        assert(!spec_is_token_terminating(text[0]));
        if t.len() > 0 {
            lemma_terminating_not_digit(t[0]);
        }
        if text.len() > 1 {
            assert(u[1] == text[1]);
        } else if t.len() > 0 {
            assert(u[1] == t[0]);
        }
        assert(!spec_looks_like_number(u));
        match ns {
            Some(n) => {
                assert(text[n.len() as int] == '/');
                assert(text != "nil"@);
                assert(text != "true"@);
                assert(text != "false"@);
                assert(text != "/"@);
            },
            None => {},
        }
        assert(symbol_scan(u) == Scan::Done(f, text.len()));
    }
}

/// An atom prints the same under any limit.
proof fn lemma_atom_pr(f: FormV, lim: Option<nat>, readable: bool)
    requires
        f is Nil || f is Bool || f is Int || f is Str || f is Keyword || f is Symbol,
    ensures
        pr(f, lim, readable) == pr(f, None, readable),
{
}

/// What [`reads_back`] gives with nothing after the text.
proof fn lemma_reads_back_alone(f: FormV, readable: bool, ctx: ReaderContext)
    requires
        reads_back(f, readable, ctx),
    ensures
        datum_scan(pr(f, None, readable), ctx) == Scan::Done(f, pr(f, None, readable).len()),
{
    let text = pr(f, None, readable);
    assert(ends_token(Seq::<char>::empty()));
    assert(datum_scan(text + Seq::<char>::empty(), ctx) == Scan::Done(f, text.len()));
    assert(text + Seq::<char>::empty() =~= text);
}

/// A string printed readably reads back as the same string: the reader's
/// string literal undoes the printer's escapes, and the literal ends where
/// the printed text ends.
pub proof fn law_string_print_read_roundtrip(s: Seq<char>, lim: Option<nat>, ctx: ReaderContext)
    ensures
        string_scan(pr(FormV::Str(s), lim, true)) == Scan::Done(FormV::Str(s), pr(FormV::Str(s), lim, true).len()),
        datum_scan(pr(FormV::Str(s), lim, true), ctx) == Scan::Done(FormV::Str(s), pr(FormV::Str(s), lim, true).len()),
{
    lemma_atom_pr(FormV::Str(s), lim, true);
    lemma_string_reads_back(s, ctx);
    lemma_reads_back_alone(FormV::Str(s), true, ctx);
    assert(pr(FormV::Str(s), lim, true)[0] == '"');
}

/// An integer printed reads back as the same integer, the number ending
/// where the printed text ends.
pub proof fn law_int_print_read_roundtrip(n: i64, lim: Option<nat>, readable: bool, ctx: ReaderContext)
    ensures
        datum_scan(pr(FormV::Int(n), lim, readable), ctx) == Scan::Done(
            FormV::Int(n),
            pr(FormV::Int(n), lim, readable).len(),
        ),
{
    lemma_atom_pr(FormV::Int(n), lim, readable);
    lemma_int_reads_back(n, readable, ctx);
    lemma_reads_back_alone(FormV::Int(n), readable, ctx);
}

/// `nil`, `true` and `false` print as text that reads back as themselves.
pub proof fn law_literal_print_read_roundtrip(f: FormV, lim: Option<nat>, readable: bool, ctx: ReaderContext)
    requires
        f is Nil || f is Bool,
    ensures
        datum_scan(pr(f, lim, readable), ctx) == Scan::Done(f, pr(f, lim, readable).len()),
{
    lemma_atom_pr(f, lim, readable);
    lemma_literal_reads_back(f, readable, ctx);
    lemma_reads_back_alone(f, readable, ctx);
}

/// A keyword whose namespace and name are token text reads back from its
/// printed form as the same keyword, the keyword ending where the text
/// ends (see [`keyword_reads_back_ok`]: the name, or the namespace when
/// there is one, must not start with `:`, which would make the text an
/// auto-resolved `::` keyword; a name without a namespace holds no `/`,
/// and a namespace holds none).
pub proof fn law_keyword_print_read_roundtrip(
    ns: Option<Seq<char>>,
    name: Seq<char>,
    lim: Option<nat>,
    readable: bool,
    ctx: ReaderContext,
)
    requires
        keyword_reads_back_ok(ns, name),
    ensures
        datum_scan(pr(FormV::Keyword(SymV { ns, name }), lim, readable), ctx) == Scan::Done(
            FormV::Keyword(SymV { ns, name }),
            pr(FormV::Keyword(SymV { ns, name }), lim, readable).len(),
        ),
{
    lemma_atom_pr(FormV::Keyword(SymV { ns, name }), lim, readable);
    lemma_keyword_reads_back(ns, name, readable, ctx);
    lemma_reads_back_alone(FormV::Keyword(SymV { ns, name }), readable, ctx);
}

/// A symbol whose namespace and name are token text reads back from its
/// printed form as the same symbol, ending where the text ends, when that
/// text does not read as something else (see [`symbol_reads_back_ok`]: it
/// must not start like a number or with `#`, `:` or `'`, must not be
/// `nil`, `true` or `false`, and the `/` in it must be the one between
/// namespace and name, or the whole name `/`).
pub proof fn law_symbol_print_read_roundtrip(
    ns: Option<Seq<char>>,
    name: Seq<char>,
    lim: Option<nat>,
    readable: bool,
    ctx: ReaderContext,
)
    requires
        symbol_reads_back_ok(ns, name),
    ensures
        datum_scan(pr(FormV::Symbol(SymV { ns, name }), lim, readable), ctx) == Scan::Done(
            FormV::Symbol(SymV { ns, name }),
            pr(FormV::Symbol(SymV { ns, name }), lim, readable).len(),
        ),
{
    lemma_atom_pr(FormV::Symbol(SymV { ns, name }), lim, readable);
    lemma_symbol_reads_back(ns, name, readable, ctx);
    lemma_reads_back_alone(FormV::Symbol(SymV { ns, name }), readable, ctx);
}

} // verus!
