//! The runtime's string primitives, on the characters of strings: slicing
//! with Python-style negative indices, reversal, prefix, suffix and
//! substring tests, the byte offset of the first occurrence, replacement of
//! every or the first occurrence of a plain string, and the whitespace
//! tests and trims that go by Unicode's `White_Space` characters.

use vstd::prelude::*;
use vstd::string::StringSliceAdditionalSpecFns;
use crate::reader::source::{lemma_utf8_len_take_step, utf8_len, utf8_width_exec};
use crate::text::{chars_to_string, string_to_chars};
use crate::reader::decimal::all_digits;
use crate::reader::lexer::spec_is_digit;
use crate::reader::number::{digits_to_i64, digits_value};

verus! {

/// An index of a slice of a `len`-character string, Python style: a
/// negative one counts from the end; both are clamped to `0..=len`.
pub open spec fn clamp_index(i: int, len: int) -> int {
    if i < 0 {
        if i + len < 0 {
            0
        } else {
            i + len
        }
    } else if i > len {
        len
    } else {
        i
    }
}

/// The characters of `s` from `start` up to `end` (the end when `None`),
/// indices taken as [`clamp_index`] does; empty when they cross.
pub open spec fn subs_text(s: Seq<char>, start: int, end: Option<int>) -> Seq<char> {
    let a = clamp_index(start, s.len() as int);
    let b = match end {
        Some(e) => clamp_index(e, s.len() as int),
        None => s.len() as int,
    };
    if a >= b {
        Seq::empty()
    } else {
        s.subrange(a, b)
    }
}

fn clamp_exec(i: i64, len: usize) -> (r: usize)
    ensures
        r as int == clamp_index(i as int, len as int),
{
    if i < 0 {
        let k = i as i128 + len as i128;
        if k < 0 {
            0
        } else {
            k as usize
        }
    } else if i as u128 > len as u128 {
        len
    } else {
        i as usize
    }
}

/// `(subs s start end)`: [`subs_text`].
pub fn subs(s: &str, start: i64, end: Option<i64>) -> (r: String)
    ensures
        r@ == subs_text(s@, start as int, match end {
            Some(e) => Some(e as int),
            None => None,
        }),
{
    let v = string_to_chars(s);
    let a = clamp_exec(start, v.len());
    let b = match end {
        Some(e) => clamp_exec(e, v.len()),
        None => v.len(),
    };
    if a >= b {
        return String::new();
    }
    chars_to_string(&crate::text::sub_chars(&v, a, b))
}

/// `(str-reverse s)`: the characters of `s` in reverse order.
pub fn str_reverse(s: &str) -> (r: String)
    ensures
        r@ == s@.reverse(),
{
    let v = string_to_chars(s);
    let mut out: Vec<char> = Vec::new();
    let mut i: usize = v.len();
    while i > 0
        invariant
            i <= v@.len(),
            out@ == v@.skip(i as int).reverse(),
        decreases i,
    {
        i = i - 1;
        out.push(v[i]);
        assert(v@.skip(i as int) =~= seq![v@[i as int]] + v@.skip(i + 1));
        assert(out@ =~= v@.skip(i as int).reverse());
    }
    assert(v@.skip(0) =~= v@);
    chars_to_string(&out)
}

/// `n` occurs in `s` at character index `i`.
pub open spec fn matches_at(s: Seq<char>, n: Seq<char>, i: int) -> bool {
    0 <= i && i + n.len() <= s.len() && s.subrange(i, i + n.len()) == n
}

/// The first index from `from` on where `n` occurs in `s`.
pub open spec fn first_match(s: Seq<char>, n: Seq<char>, from: nat) -> Option<nat>
    decreases s.len() + 1 - from,
{
    if from + n.len() > s.len() {
        None
    } else if matches_at(s, n, from as int) {
        Some(from)
    } else {
        first_match(s, n, from + 1)
    }
}

fn matches_at_exec(s: &Vec<char>, n: &Vec<char>, i: usize) -> (r: bool)
    ensures
        r == matches_at(s@, n@, i as int),
{
    if n.len() > s.len() || i > s.len() - n.len() {
        return false;
    }
    let mut k: usize = 0;
    while k < n.len()
        invariant
            k <= n@.len(),
            i + n@.len() <= s@.len(),
            s@.len() <= usize::MAX,
            forall|j: int| 0 <= j < k ==> s@[i + j] == n@[j],
        decreases n@.len() - k,
    {
        if s[i + k] != n[k] {
            assert(s@.subrange(i as int, i + n@.len())[k as int] != n@[k as int]);
            return false;
        }
        k = k + 1;
    }
    assert(s@.subrange(i as int, i + n@.len()) =~= n@);
    true
}

proof fn lemma_first_match(s: Seq<char>, n: Seq<char>, from: nat)
    ensures
        first_match(s, n, from) matches Some(i) ==> from <= i && matches_at(s, n, i as int),
        first_match(s, n, from) is None ==> forall|j: int| from <= j ==> !matches_at(s, n, j),
    decreases s.len() + 1 - from,
{
    if from + n.len() <= s.len() && !matches_at(s, n, from as int) {
        lemma_first_match(s, n, from + 1);
    }
}

/// [`first_match`] from `from`.
fn find_from(s: &Vec<char>, n: &Vec<char>, from: usize) -> (r: Option<usize>)
    ensures
        match first_match(s@, n@, from as nat) {
            Some(i) => r == Some(i as usize),
            None => r is None,
        },
{
    let _len = s.len();
    let mut i = from;
    while i <= s.len() && n.len() <= s.len() - i
        invariant
            from <= i,
            s@.len() <= usize::MAX,
            first_match(s@, n@, from as nat) == first_match(s@, n@, i as nat),
        decreases s@.len() + 1 - i,
    {
        if matches_at_exec(s, n, i) {
            return Some(i);
        }
        assert(n@.len() == 0 ==> s@.subrange(i as int, i as int) =~= n@);
        assert(i < s@.len());
        i = i + 1;
    }
    None
}

/// `(str-starts-with? s p)`.
pub fn starts_with(s: &str, p: &str) -> (r: bool)
    ensures
        r == matches_at(s@, p@, 0),
{
    matches_at_exec(&string_to_chars(s), &string_to_chars(p), 0)
}

/// `(str-ends-with? s p)`.
pub fn ends_with(s: &str, p: &str) -> (r: bool)
    ensures
        r == (p@.len() <= s@.len() && matches_at(s@, p@, s@.len() - p@.len())),
{
    let v = string_to_chars(s);
    let w = string_to_chars(p);
    if w.len() > v.len() {
        return false;
    }
    matches_at_exec(&v, &w, v.len() - w.len())
}

/// `(str-includes? s sub)`: `sub` occurs somewhere in `s`.
pub fn includes(s: &str, sub: &str) -> (r: bool)
    ensures
        r == (first_match(s@, sub@, 0) is Some),
        r == (exists|i: int| matches_at(s@, sub@, i)),
{
    proof {
        lemma_first_match(s@, sub@, 0);
    }
    find_from(&string_to_chars(s), &string_to_chars(sub), 0).is_some()
}

/// `(str-index-of s sub)`: the byte offset (in the UTF-8 text) of the first
/// occurrence of `sub` in `s`.
pub fn index_of(s: &str, sub: &str) -> (r: Option<usize>)
    ensures
        match first_match(s@, sub@, 0) {
            Some(i) => r == Some(utf8_len(s@.take(i as int)) as usize),
            None => r is None,
        },
{
    let v = string_to_chars(s);
    let w = string_to_chars(sub);
    let _len = v.len();
    proof {
        lemma_first_match(v@, w@, 0);
    }
    match find_from(&v, &w, 0) {
        None => None,
        Some(i) => {
            let total = s.as_bytes().len();
            let mut bytes: usize = 0;
            let mut k: usize = 0;
            proof {
                assert(v@.take(0) =~= Seq::<char>::empty());
                crate::reader::source::lemma_utf8_len_le_encoding_len(s@);
                assert(s.spec_bytes() == vstd::utf8::encode_utf8(s@));
            }
            while k < i
                invariant
                    k <= i <= v@.len(),
                    v@ == s@,
                    utf8_len(s@) <= usize::MAX,
                    bytes == utf8_len(v@.take(k as int)),
                decreases i - k,
            {
                proof {
                    lemma_utf8_len_take_step(v@, k as int);
                    crate::reader::source::lemma_utf8_len_take_le(v@, k + 1);
                }
                bytes = bytes + utf8_width_exec(v[k]);
                k = k + 1;
            }
            Some(bytes)
        },
    }
}

/// `s` with each occurrence of the non-empty `n` (left to right, not
/// overlapping) from index `i` on replaced by `r`.
pub open spec fn replace_from(s: Seq<char>, n: Seq<char>, r: Seq<char>, i: nat) -> Seq<char>
    decreases s.len() - i,
{
    if i >= s.len() || n.len() == 0 {
        s.skip(i as int)
    } else if matches_at(s, n, i as int) {
        r + replace_from(s, n, r, i + n.len())
    } else {
        seq![s[i as int]] + replace_from(s, n, r, i + 1)
    }
}

/// `s` with `r` put before each character and at the end (what replacing
/// the empty string does).
pub open spec fn replace_empty(s: Seq<char>, r: Seq<char>) -> Seq<char>
    decreases s.len(),
{
    if s.len() == 0 {
        r
    } else {
        r + seq![s[0]] + replace_empty(s.drop_first(), r)
    }
}

/// `(str-replace s n r)` for a plain string `n`: every occurrence replaced.
pub open spec fn replace_all(s: Seq<char>, n: Seq<char>, r: Seq<char>) -> Seq<char> {
    if n.len() == 0 {
        replace_empty(s, r)
    } else {
        replace_from(s, n, r, 0)
    }
}

/// `(str-replace s n r)` with a plain string `n`: [`replace_all`].
pub fn replace_str(s: &str, n: &str, r: &str) -> (out: String)
    ensures
        out@ == replace_all(s@, n@, r@),
{
    let v = string_to_chars(s);
    let w = string_to_chars(n);
    let x = string_to_chars(r);
    let mut out: Vec<char> = Vec::new();
    let mut i: usize = 0;
    assert(v@.skip(0) =~= v@);
    assert(out@ + v@ =~= v@);
    if w.len() == 0 {
        while i < v.len()
            invariant
                i <= v@.len(),
                out@ + replace_empty(v@.skip(i as int), x@) == replace_empty(v@, x@),
            decreases v@.len() - i,
        {
            let ghost before = out@;
            let mut k: usize = 0;
            while k < x.len()
                invariant
                    k <= x@.len(),
                    out@ == before + x@.take(k as int),
                decreases x@.len() - k,
            {
                out.push(x[k]);
                assert(before + x@.take(k + 1) =~= (before + x@.take(k as int)).push(x@[k as int]));
                k = k + 1;
            }
            out.push(v[i]);
            proof {
                assert(x@.take(k as int) =~= x@);
                let t = v@.skip(i as int);
                assert(t.drop_first() =~= v@.skip(i + 1));
                assert(t[0] == v@[i as int]);
                assert(out@ + replace_empty(v@.skip(i + 1), x@) =~= before + replace_empty(t, x@));
            }
            i = i + 1;
        }
        let ghost before = out@;
        let mut k: usize = 0;
        while k < x.len()
            invariant
                k <= x@.len(),
                out@ == before + x@.take(k as int),
            decreases x@.len() - k,
        {
            out.push(x[k]);
            assert(before + x@.take(k + 1) =~= (before + x@.take(k as int)).push(x@[k as int]));
            k = k + 1;
        }
        proof {
            assert(x@.take(k as int) =~= x@);
            assert(v@.skip(i as int) =~= Seq::<char>::empty());
        }
        return chars_to_string(&out);
    }
    assert(v@.skip(0) =~= v@);
    while i < v.len()
        invariant
            i <= v@.len(),
            w@.len() > 0,
            out@ + replace_from(v@, w@, x@, i as nat) == replace_from(v@, w@, x@, 0),
        decreases v@.len() - i,
    {
        let ghost before = out@;
        if matches_at_exec(&v, &w, i) {
            let mut k: usize = 0;
            while k < x.len()
                invariant
                    k <= x@.len(),
                    out@ == before + x@.take(k as int),
                decreases x@.len() - k,
            {
                out.push(x[k]);
                assert(before + x@.take(k + 1) =~= (before + x@.take(k as int)).push(x@[k as int]));
                k = k + 1;
            }
            proof {
                assert(x@.take(k as int) =~= x@);
                assert(out@ + replace_from(v@, w@, x@, (i + w@.len()) as nat) =~= before + replace_from(
                    v@,
                    w@,
                    x@,
                    i as nat,
                ));
            }
            i = i + w.len();
        } else {
            out.push(v[i]);
            assert(out@ + replace_from(v@, w@, x@, (i + 1) as nat) =~= before + replace_from(
                v@,
                w@,
                x@,
                i as nat,
            ));
            i = i + 1;
        }
    }
    assert(replace_from(v@, w@, x@, i as nat) =~= Seq::<char>::empty());
    chars_to_string(&out)
}

/// `(str-replace-first s n r)` for a plain string `n`: the first occurrence
/// replaced, `s` as it is without one.
pub open spec fn replace_first_text(s: Seq<char>, n: Seq<char>, r: Seq<char>) -> Seq<char> {
    match first_match(s, n, 0) {
        Some(i) => s.take(i as int) + r + s.skip((i + n.len()) as int),
        None => s,
    }
}

/// `(str-replace-first s n r)` with a plain string `n`: [`replace_first_text`].
pub fn replace_first(s: &str, n: &str, r: &str) -> (out: String)
    ensures
        out@ == replace_first_text(s@, n@, r@),
{
    let v = string_to_chars(s);
    let w = string_to_chars(n);
    let _len = v.len();
    match find_from(&v, &w, 0) {
        None => chars_to_string(&v),
        Some(i) => {
            proof {
                lemma_first_match(v@, w@, 0);
                let i0 = first_match(v@, w@, 0)->0;
                assert(i0 + w@.len() <= v@.len());
                assert(i as nat == i0);
            }
            let mut out = crate::text::sub_chars(&v, 0, i);
            let x = string_to_chars(r);
            let tail = crate::text::sub_chars(&v, i + w.len(), v.len());
            let ghost a = out@;
            let mut k: usize = 0;
            while k < x.len()
                invariant
                    k <= x@.len(),
                    out@ == a + x@.take(k as int),
                decreases x@.len() - k,
            {
                out.push(x[k]);
                assert(a + x@.take(k + 1) =~= (a + x@.take(k as int)).push(x@[k as int]));
                k = k + 1;
            }
            let ghost b = out@;
            let mut j: usize = 0;
            while j < tail.len()
                invariant
                    j <= tail@.len(),
                    out@ == b + tail@.take(j as int),
                decreases tail@.len() - j,
            {
                out.push(tail[j]);
                assert(b + tail@.take(j + 1) =~= (b + tail@.take(j as int)).push(tail@[j as int]));
                j = j + 1;
            }
            proof {
                assert(x@.take(k as int) =~= x@);
                assert(tail@.take(j as int) =~= tail@);
                assert(out@ =~= v@.take(i as int) + x@ + v@.skip(i + w@.len()));
            }
            chars_to_string(&out)
        },
    }
}

/// A Unicode `White_Space` character (what Rust's `char::is_whitespace`
/// tests).
pub open spec fn is_space(c: char) -> bool {
    let u = c as u32;
    ||| 0x09 <= u <= 0x0D
    ||| u == 0x20
    ||| u == 0x85
    ||| u == 0xA0
    ||| u == 0x1680
    ||| 0x2000 <= u <= 0x200A
    ||| u == 0x2028
    ||| u == 0x2029
    ||| u == 0x202F
    ||| u == 0x205F
    ||| u == 0x3000
}

fn is_space_exec(c: char) -> (r: bool)
    ensures
        r == is_space(c),
{
    let u = c as u32;
    (0x09 <= u && u <= 0x0D) || u == 0x20 || u == 0x85 || u == 0xA0 || u == 0x1680 || (0x2000 <= u && u
        <= 0x200A) || u == 0x2028 || u == 0x2029 || u == 0x202F || u == 0x205F || u == 0x3000
}

/// `(str-blank? s)`: every character of `s` is whitespace.
pub fn blank(s: &str) -> (r: bool)
    ensures
        r == (forall|i: int| 0 <= i < s@.len() ==> is_space(#[trigger] s@[i])),
{
    let v = string_to_chars(s);
    let mut i: usize = 0;
    while i < v.len()
        invariant
            i <= v@.len(),
            v@ == s@,
            forall|j: int| 0 <= j < i ==> is_space(#[trigger] v@[j]),
        decreases v@.len() - i,
    {
        if !is_space_exec(v[i]) {
            return false;
        }
        i = i + 1;
    }
    true
}

/// Number of whitespace characters `s` starts with.
pub open spec fn leading_space(s: Seq<char>) -> nat
    decreases s.len(),
{
    if s.len() > 0 && is_space(s[0]) {
        1 + leading_space(s.drop_first())
    } else {
        0
    }
}

/// Number of whitespace characters `s` ends with.
pub open spec fn trailing_space(s: Seq<char>) -> nat
    decreases s.len(),
{
    if s.len() > 0 && is_space(s.last()) {
        1 + trailing_space(s.drop_last())
    } else {
        0
    }
}

proof fn lemma_leading_space(s: Seq<char>)
    ensures
        leading_space(s) <= s.len(),
        forall|j: int| 0 <= j < leading_space(s) ==> is_space(#[trigger] s[j]),
        leading_space(s) < s.len() ==> !is_space(s[leading_space(s) as int]),
    decreases s.len(),
{
    if s.len() > 0 && is_space(s[0]) {
        lemma_leading_space(s.drop_first());
        assert forall|j: int| 0 <= j < leading_space(s) implies is_space(#[trigger] s[j]) by {
            if j > 0 {
                assert(s[j] == s.drop_first()[j - 1]);
            }
        }
    }
}

proof fn lemma_trailing_space(s: Seq<char>)
    ensures
        trailing_space(s) <= s.len(),
        forall|j: int| s.len() - trailing_space(s) <= j < s.len() ==> is_space(#[trigger] s[j]),
        trailing_space(s) < s.len() ==> !is_space(s[s.len() - 1 - trailing_space(s)]),
    decreases s.len(),
{
    if s.len() > 0 && is_space(s.last()) {
        lemma_trailing_space(s.drop_last());
        assert forall|j: int| s.len() - trailing_space(s) <= j < s.len() implies is_space(#[trigger] s[j]) by {
            if j < s.len() - 1 {
                assert(s[j] == s.drop_last()[j]);
            }
        }
        if trailing_space(s) < s.len() {
            assert(s[s.len() - 1 - trailing_space(s)] == s.drop_last()[s.drop_last().len() - 1
                - trailing_space(s.drop_last())]);
        }
    }
}

/// How many whitespace characters `v` starts with.
fn count_leading(v: &Vec<char>) -> (k: usize)
    ensures
        k == leading_space(v@),
{
    proof {
        lemma_leading_space(v@);
    }
    let mut k: usize = 0;
    while k < v.len() && is_space_exec(v[k])
        invariant
            k <= leading_space(v@),
            leading_space(v@) <= v@.len(),
            forall|j: int| 0 <= j < leading_space(v@) ==> is_space(#[trigger] v@[j]),
            leading_space(v@) < v@.len() ==> !is_space(v@[leading_space(v@) as int]),
        decreases v@.len() - k,
    {
        k = k + 1;
    }
    k
}

/// How many whitespace characters `v` ends with.
fn count_trailing(v: &Vec<char>) -> (k: usize)
    ensures
        k == trailing_space(v@),
{
    proof {
        lemma_trailing_space(v@);
    }
    let mut k: usize = 0;
    while k < v.len() && is_space_exec(v[v.len() - 1 - k])
        invariant
            k <= trailing_space(v@),
            trailing_space(v@) <= v@.len(),
            forall|j: int| v@.len() - trailing_space(v@) <= j < v@.len() ==> is_space(#[trigger] v@[j]),
            trailing_space(v@) < v@.len() ==> !is_space(v@[v@.len() - 1 - trailing_space(v@)]),
        decreases v@.len() - k,
    {
        k = k + 1;
    }
    k
}

/// `(str-triml s)`: `s` without its leading whitespace.
pub fn triml(s: &str) -> (r: String)
    ensures
        r@ == s@.skip(leading_space(s@) as int),
{
    let v = string_to_chars(s);
    let k = count_leading(&v);
    proof {
        lemma_leading_space(v@);
    }
    chars_to_string(&crate::text::sub_chars(&v, k, v.len()))
}

/// `(str-trimr s)`: `s` without its trailing whitespace.
pub fn trimr(s: &str) -> (r: String)
    ensures
        r@ == s@.take(s@.len() - trailing_space(s@)),
{
    let v = string_to_chars(s);
    let k = count_trailing(&v);
    proof {
        lemma_trailing_space(v@);
    }
    chars_to_string(&crate::text::sub_chars(&v, 0, v.len() - k))
}

/// `(str-trim s)`: `s` without its leading and trailing whitespace.
pub fn trim(s: &str) -> (r: String)
    ensures
        ({
            let t = s@.skip(leading_space(s@) as int);
            r@ == t.take(t.len() - trailing_space(t))
        }),
{
    let v = string_to_chars(s);
    let k = count_leading(&v);
    proof {
        lemma_leading_space(v@);
    }
    let t = crate::text::sub_chars(&v, k, v.len());
    let j = count_trailing(&t);
    proof {
        lemma_trailing_space(t@);
        assert(t@ =~= s@.skip(leading_space(s@) as int));
    }
    chars_to_string(&crate::text::sub_chars(&t, 0, t.len() - j))
}


/// What `str::to_uppercase` gives for `s` (Unicode's full upper-case
/// mapping).
pub uninterp spec fn upper_text(s: Seq<char>) -> Seq<char>;

/// What `str::to_lowercase` gives for `s` (Unicode's full lower-case
/// mapping, with the final-sigma rule).
pub uninterp spec fn lower_text(s: Seq<char>) -> Seq<char>;

/// What `char::to_uppercase` gives for `c`, collected into a string.
pub uninterp spec fn char_upper_text(c: char) -> Seq<char>;

/// `str::to_uppercase`: its result is named [`upper_text`] of the argument.
#[verifier::external_body]
fn to_upper(s: &str) -> (r: String)
    ensures
        r@ == upper_text(s@),
{
    s.to_uppercase()
}

/// `str::to_lowercase`: its result is named [`lower_text`] of the argument.
#[verifier::external_body]
fn to_lower(s: &str) -> (r: String)
    ensures
        r@ == lower_text(s@),
{
    s.to_lowercase()
}

/// `char::to_uppercase`, collected into a `String`: its result is named
/// [`char_upper_text`] of the argument.
#[verifier::external_body]
fn char_to_upper(c: char) -> (r: String)
    ensures
        r@ == char_upper_text(c),
{
    c.to_uppercase().collect::<String>()
}

/// `(str-upper s)`.
pub fn str_upper(s: &str) -> (r: String)
    ensures
        r@ == upper_text(s@),
{
    to_upper(s)
}

/// `(str-lower s)`.
pub fn str_lower(s: &str) -> (r: String)
    ensures
        r@ == lower_text(s@),
{
    to_lower(s)
}

/// `(str-capitalize s)`: the first character upper-cased, the rest
/// lower-cased; empty for the empty string.
pub fn str_capitalize(s: &str) -> (r: String)
    ensures
        r@ == if s@.len() == 0 {
            Seq::<char>::empty()
        } else {
            char_upper_text(s@[0]) + lower_text(s@.drop_first())
        },
{
    let v = string_to_chars(s);
    if v.len() == 0 {
        return String::new();
    }
    let mut out = char_to_upper(v[0]);
    let rest = chars_to_string(&crate::text::sub_chars(&v, 1, v.len()));
    let low = to_lower(rest.as_str());
    proof {
        assert(rest@ =~= s@.drop_first());
    }
    crate::text::push_str(&mut out, low.as_str());
    out
}


/// What `i64::from_str` accepts in `t`: an optional `+` or `-`, then one
/// or more decimal digits, with a value that fits; the value.
pub open spec fn parse_i64_spec(t: Seq<char>) -> Option<i64> {
    let sg: int = if t.len() > 0 && (t[0] == '+' || t[0] == '-') {
        1
    } else {
        0
    };
    let d = t.skip(sg);
    let v: int = if sg == 1 && t[0] == '-' {
        -digits_value(d)
    } else {
        digits_value(d) as int
    };
    if d.len() > 0 && all_digits(d) && i64::MIN <= v <= i64::MAX {
        Some(v as i64)
    } else {
        None
    }
}

/// `(parse-long s)`: `s` without surrounding whitespace, read as a 64-bit
/// integer; `None` when it is not one.
pub fn parse_long(s: &str) -> (r: Option<i64>)
    ensures
        ({
            let u = s@.skip(leading_space(s@) as int);
            let t = u.take(u.len() - trailing_space(u));
            r == parse_i64_spec(t)
        }),
{
    let trimmed = trim(s);
    let t = string_to_chars(trimmed.as_str());
    let sg: usize = if t.len() > 0 && (t[0] == '+' || t[0] == '-') {
        1
    } else {
        0
    };
    let neg = sg == 1 && t[0] == '-';
    let d = crate::text::sub_chars(&t, sg, t.len());
    proof {
        assert(d@ =~= t@.skip(sg as int));
    }
    if d.len() == 0 {
        return None;
    }
    let mut i: usize = 0;
    while i < d.len()
        invariant
            i <= d@.len(),
            d@ == t@.skip(sg as int),
            d@.len() > 0,
            sg == (if t@.len() > 0 && (t@[0] == '+' || t@[0] == '-') {
                1int
            } else {
                0int
            }),
            t@ == ({
                let u = s@.skip(leading_space(s@) as int);
                u.take(u.len() - trailing_space(u))
            }),
            forall|k: int| 0 <= k < i ==> spec_is_digit(#[trigger] d@[k]),
        decreases d@.len() - i,
    {
        if !crate::reader::lexer::is_digit(d[i]) {
            assert(!all_digits(d@));
            return None;
        }
        i = i + 1;
    }
    digits_to_i64(&d, neg)
}

/// `(parse-boolean s)`: `true` or `false` for exactly those texts, else
/// `None`.
pub fn parse_boolean(s: &str) -> (r: Option<bool>)
    ensures
        r == (if s@ == "true"@ {
            Some(true)
        } else if s@ == "false"@ {
            Some(false)
        } else {
            None::<bool>
        }),
{
    let v = string_to_chars(s);
    if crate::text::chars_eq_str(&v, "true") {
        Some(true)
    } else if crate::text::chars_eq_str(&v, "false") {
        Some(false)
    } else {
        None
    }
}

/// `t` without one `\r` at its end.
pub open spec fn strip_cr(t: Seq<char>) -> Seq<char> {
    if t.len() > 0 && t.last() == '\r' {
        t.drop_last()
    } else {
        t
    }
}

/// Index of the first newline of `s` at or after `i`.
pub open spec fn next_newline(s: Seq<char>, i: nat) -> Option<nat>
    decreases s.len() - i,
{
    if i >= s.len() {
        None
    } else if s[i as int] == '\n' {
        Some(i)
    } else {
        next_newline(s, i + 1)
    }
}

/// The lines of `s` from index `i` on: the text between newlines, each
/// without a final `\r`; a newline at the very end starts no further line.
pub open spec fn lines_from(s: Seq<char>, i: nat) -> Seq<Seq<char>>
    decreases s.len() - i,
{
    if i >= s.len() {
        Seq::empty()
    } else {
        match next_newline(s, i) {
            Some(j) => if j >= i && j < s.len() {
                seq![strip_cr(s.subrange(i as int, j as int))] + lines_from(s, j + 1)
            } else {
                Seq::empty()
            },
            None => seq![strip_cr(s.skip(i as int))],
        }
    }
}

proof fn lemma_next_newline(s: Seq<char>, i: nat)
    ensures
        next_newline(s, i) matches Some(j) ==> i <= j < s.len() && s[j as int] == '\n' && forall|k: int|
            i <= k < j ==> s[k] != '\n',
        next_newline(s, i) is None ==> forall|k: int| i <= k < s.len() ==> s[k] != '\n',
    decreases s.len() - i,
{
    if i < s.len() && s[i as int] != '\n' {
        lemma_next_newline(s, i + 1);
    }
}

/// The views of a vector of strings.
pub open spec fn texts_view(v: Seq<String>) -> Seq<Seq<char>> {
    Seq::new(v.len(), |i: int| v[i]@)
}

fn strip_cr_exec(v: &Vec<char>, lo: usize, hi: usize) -> (r: String)
    requires
        lo <= hi <= v@.len(),
    ensures
        r@ == strip_cr(v@.subrange(lo as int, hi as int)),
{
    let end = if hi > lo && v[hi - 1] == '\r' {
        hi - 1
    } else {
        hi
    };
    let t = crate::text::sub_chars(v, lo, end);
    proof {
        if hi > lo && v@[hi - 1] == '\r' {
            assert(t@ =~= v@.subrange(lo as int, hi as int).drop_last());
        }
    }
    chars_to_string(&t)
}

/// `(str-split-lines s)`: the lines of `s` ([`lines_from`] from the start).
pub fn split_lines(s: &str) -> (r: Vec<String>)
    ensures
        texts_view(r@) == lines_from(s@, 0),
{
    let v = string_to_chars(s);
    let mut out: Vec<String> = Vec::new();
    let mut i: usize = 0;
    let mut start: usize = 0;
    assert(texts_view(out@) + lines_from(v@, 0) =~= lines_from(v@, 0));
    while start < v.len()
        invariant
            start <= v@.len(),
            v@ == s@,
            texts_view(out@) + lines_from(v@, start as nat) == lines_from(v@, 0),
        decreases v@.len() - start,
    {
        proof {
            lemma_next_newline(v@, start as nat);
        }
        let mut j = start;
        while j < v.len() && v[j] != '\n'
            invariant
                start <= j <= v@.len(),
                next_newline(v@, start as nat) == next_newline(v@, j as nat),
            decreases v@.len() - j,
        {
            j = j + 1;
        }
        proof {
            lemma_next_newline(v@, j as nat);
        }
        let line = strip_cr_exec(&v, start, j);
        let ghost before = out@;
        out.push(line);
        proof {
            assert(texts_view(out@) =~= texts_view(before).push(line@));
        }
        if j == v.len() {
            proof {
                assert(lines_from(v@, j as nat) =~= Seq::<Seq<char>>::empty());
                assert(lines_from(v@, start as nat) == seq![strip_cr(v@.skip(start as int))]);
                assert(v@.skip(start as int) =~= v@.subrange(start as int, j as int));
                assert(texts_view(out@) + Seq::<Seq<char>>::empty() =~= texts_view(before) + lines_from(
                    v@,
                    start as nat,
                ));
            }
            start = j;
        } else {
            proof {
                assert(texts_view(out@) + lines_from(v@, (j + 1) as nat) =~= texts_view(before) + lines_from(
                    v@,
                    start as nat,
                ));
            }
            start = j + 1;
        }
    }
    proof {
        assert(lines_from(v@, start as nat) =~= Seq::<Seq<char>>::empty());
        assert(texts_view(out@) + Seq::<Seq<char>>::empty() =~= texts_view(out@));
    }
    out
}

} // verus!
