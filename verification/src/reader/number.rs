//! Number parsing: integers, floats and ratios.

use vstd::prelude::*;
use crate::reader::decimal::{
    all_digits, canonical, divmod_digits, gcd, gcd_digits, lemma_gcd_pos, lemma_strip_canonical,
    lemma_strip_value,
};
use crate::reader::errors::{ReadError, ReadErrorKind, ReadErrorKindV, Scan, form_outcome, scan_within};
use crate::reader::form::{Form, FormV};
use crate::reader::lexer::{is_digit, spec_is_digit};
use crate::reader::source::Source;
use crate::text::{chars_to_string, sub_chars};

verus! {

/// Number of leading decimal digits of `s`.
pub open spec fn digit_run(s: Seq<char>) -> nat
    decreases s.len(),
{
    if s.len() > 0 && spec_is_digit(s[0]) {
        1 + digit_run(s.drop_first())
    } else {
        0
    }
}

pub proof fn lemma_digit_run(s: Seq<char>)
    ensures
        digit_run(s) <= s.len(),
        forall|j: int| 0 <= j < digit_run(s) ==> spec_is_digit(#[trigger] s[j]),
        digit_run(s) < s.len() ==> !spec_is_digit(s[digit_run(s) as int]),
    decreases s.len(),
{
    if s.len() > 0 && spec_is_digit(s[0]) {
        lemma_digit_run(s.drop_first());
        assert forall|j: int| 0 <= j < digit_run(s) implies spec_is_digit(#[trigger] s[j]) by {
            if j > 0 {
                assert(s[j] == s.drop_first()[j - 1]);
            }
        }
    }
}

/// Value of a digit character.
pub open spec fn digit_value(c: char) -> nat {
    (c as int - '0' as int) as nat
}

/// Value of a string of decimal digits (most significant first).
pub open spec fn digits_value(d: Seq<char>) -> nat
    decreases d.len(),
{
    if d.len() == 0 {
        0
    } else {
        digits_value(d.drop_last()) * 10 + digit_value(d.last())
    }
}

/// `d` without its leading zeros.
pub open spec fn strip_zeros(d: Seq<char>) -> Seq<char>
    decreases d.len(),
{
    if d.len() > 0 && d[0] == '0' {
        strip_zeros(d.drop_first())
    } else {
        d
    }
}

/// Every character of `d` is `0`.
pub open spec fn all_zero(d: Seq<char>) -> bool {
    forall|i: int| 0 <= i < d.len() ==> d[i] == '0'
}

/// What reading a number does with input `s`: an optional sign and digits;
/// then either `/` and denominator digits (a ratio), or an optional
/// fraction `.digits` and exponent `e[sign]digits` (a double), or nothing
/// more (an integer: an `i64` when it fits, else the canonical digits of
/// the big integer).
pub open spec fn number_scan(s: Seq<char>) -> Scan {
    let sg = sign_len(s);
    let i1 = int_end(s);
    if i1 < s.len() && s[i1] == '/' {
        ratio_scan(s)
    } else {
        decimal_scan(s)
    }
}

/// 1 when `s` starts with a sign, else 0.
pub open spec fn sign_len(s: Seq<char>) -> int {
    if s.len() > 0 && (s[0] == '+' || s[0] == '-') {
        1
    } else {
        0
    }
}

/// End of the optional sign and the digits that follow it.
pub open spec fn int_end(s: Seq<char>) -> int {
    sign_len(s) + digit_run(s.skip(sign_len(s)))
}

/// An integer's value as read: an `i64` when it fits, else the canonical
/// digits of the big integer (with `-` when negative).
pub open spec fn int_form(v: int) -> FormV {
    if i64::MIN <= v <= i64::MAX {
        FormV::Int(v as i64)
    } else if v < 0 {
        FormV::BigInt(seq!['-'] + canonical((-v) as nat))
    } else {
        FormV::BigInt(canonical(v as nat))
    }
}

/// The ratio `n/d` (negated when `neg`) in lowest terms: both divided by
/// their greatest common divisor; an integer when the denominator that
/// leaves is 1.
pub open spec fn ratio_form(neg: bool, n: nat, d: nat) -> FormV {
    let g = gcd(n, d);
    let a = n / g;
    let b = d / g;
    if b == 1 {
        int_form(
            if neg {
                -a
            } else {
                a as int
            },
        )
    } else {
        FormV::Ratio(
            if neg {
                seq!['-'] + canonical(a)
            } else {
                canonical(a)
            },
            canonical(b),
        )
    }
}

/// A ratio: the integer part is followed by `/`; it is read in lowest
/// terms (see [`ratio_form`]).
pub open spec fn ratio_scan(s: Seq<char>) -> Scan {
    let sg = sign_len(s);
    let i1 = int_end(s);
    if i1 + 1 < s.len() && spec_is_digit(s[i1 + 1]) {
        let i2: int = i1 + 1 + digit_run(s.skip(i1 + 1));
        let num = s.take(i1);
        let den = s.subrange(i1 + 1, i2);
        if i1 == sg {
            Scan::Fail(ReadErrorKindV::InvalidInteger(num), 0, i2 as nat)
        } else if all_zero(den) {
            Scan::Fail(ReadErrorKindV::RatioDivideByZero, 0, i2 as nat)
        } else {
            Scan::Done(
                ratio_form(sg == 1 && s[0] == '-', digits_value(s.subrange(sg, i1)), digits_value(den)),
                i2 as nat,
            )
        }
    } else {
        Scan::Fail(ReadErrorKindV::RatioMissingDigit, 0, i1 as nat)
    }
}

/// End of the optional fraction `.digits` after the integer part.
pub open spec fn frac_end(s: Seq<char>) -> int {
    let i1 = int_end(s);
    if i1 < s.len() && s[i1] == '.' {
        i1 + 1 + digit_run(s.skip(i1 + 1))
    } else {
        i1
    }
}

/// The number has an exponent marker after its fraction.
pub open spec fn has_exp(s: Seq<char>) -> bool {
    let i2 = frac_end(s);
    i2 < s.len() && (s[i2] == 'e' || s[i2] == 'E')
}

/// Where the exponent digits start.
pub open spec fn exp_digits_start(s: Seq<char>) -> int {
    let i2 = frac_end(s);
    if i2 + 1 < s.len() && (s[i2 + 1] == '+' || s[i2 + 1] == '-') {
        i2 + 2
    } else {
        i2 + 1
    }
}

/// End of the number's text.
pub open spec fn number_end(s: Seq<char>) -> int {
    if has_exp(s) {
        exp_digits_start(s) + digit_run(s.skip(exp_digits_start(s)))
    } else {
        frac_end(s)
    }
}

/// An integer or a double: no `/` after the integer part.
pub open spec fn decimal_scan(s: Seq<char>) -> Scan {
    let sg = sign_len(s);
    let i1 = int_end(s);
    let dot = i1 < s.len() && s[i1] == '.';
    let ex = has_exp(s);
    let i3 = number_end(s);
    let buf = s.take(i3);
    if dot || ex {
        let frac_digits: int = if dot {
            frac_end(s) - i1 - 1
        } else {
            0
        };
        let valid = (i1 - sg) + frac_digits > 0 && (!ex || i3 > exp_digits_start(s));
        if valid {
            Scan::Done(FormV::Float(buf), i3 as nat)
        } else {
            Scan::Fail(ReadErrorKindV::InvalidFloat(buf), 0, i3 as nat)
        }
    } else {
        let d = s.subrange(sg, i1);
        let neg = sg == 1 && s[0] == '-';
        let v: int = if neg {
            -digits_value(d)
        } else {
            digits_value(d) as int
        };
        if d.len() == 0 {
            Scan::Fail(ReadErrorKindV::InvalidInteger(buf), 0, i1 as nat)
        } else if i64::MIN <= v <= i64::MAX {
            Scan::Done(FormV::Int(v as i64), i1 as nat)
        } else if neg {
            Scan::Done(FormV::BigInt(seq!['-'] + strip_zeros(d)), i1 as nat)
        } else {
            Scan::Done(FormV::BigInt(strip_zeros(d)), i1 as nat)
        }
    }
}

/// Consume a run of digits, appending them to `buf`; returns how many.
fn read_digits(src: &mut Source, buf: &mut Vec<char>) -> (n: usize)
    requires
        old(src).wf(),
        old(src).has_room(),
    ensures
        n == digit_run(old(src).rest()),
        final(buf)@ == old(buf)@ + old(src).rest().take(n as int),
        *final(src) == old(src).advanced(n as nat),
        final(src).wf(),
        final(src).has_room(),
{
    let ghost s0 = *src;
    let ghost r0 = src.rest();
    let ghost b0 = buf@;
    let mut n: usize = 0;
    proof {
        lemma_digit_run(r0);
        s0.lemma_advanced(0);
        assert(r0.skip(0) =~= r0);
    }
    loop
        invariant
            s0 == *old(src),
            b0 == old(buf)@,
            s0.wf(),
            s0.has_room(),
            s0.rest() == r0,
            n <= digit_run(r0),
            digit_run(r0) <= r0.len(),
            forall|j: int| 0 <= j < digit_run(r0) ==> spec_is_digit(#[trigger] r0[j]),
            digit_run(r0) < r0.len() ==> !spec_is_digit(r0[digit_run(r0) as int]),
            *src == s0.advanced(n as nat),
            src.wf(),
            src.has_room(),
            src.rest() == r0.skip(n as int),
            buf@ == b0 + r0.take(n as int),
        ensures
            n == digit_run(r0),
            *src == s0.advanced(n as nat),
            buf@ == b0 + r0.take(n as int),
            src.wf(),
            src.has_room(),
        decreases r0.len() - n,
    {
        match src.peek() {
            Some(c) => {
                if !is_digit(c) {
                    break;
                }
                proof {
                    src.lemma_step();
                    assert(r0.skip(n as int)[0] == r0[n as int]);
                }
                buf.push(c);
                src.advance();
                proof {
                    assert(b0 + r0.take(n + 1) =~= (b0 + r0.take(n as int)).push(c));
                    assert(r0.skip(n as int).drop_first() =~= r0.skip(n + 1));
                    s0.lemma_advanced((n + 1) as nat);
                }
                n = n + 1;
            },
            None => {
                break;
            },
        }
    }
    n
}

pub proof fn lemma_digits_value_step(d: Seq<char>, i: int)
    requires
        0 <= i < d.len(),
    ensures
        digits_value(d.take(i + 1)) == digits_value(d.take(i)) * 10 + digit_value(d[i]),
{
    assert(d.take(i + 1).drop_last() =~= d.take(i));
}

/// The value of the digits `d`, negated when `neg`, if it fits an `i64`.
pub fn digits_to_i64(d: &Vec<char>, neg: bool) -> (r: Option<i64>)
    requires
        forall|j: int| 0 <= j < d@.len() ==> spec_is_digit(#[trigger] d@[j]),
    ensures
        ({
            let v: int = if neg {
                -digits_value(d@)
            } else {
                digits_value(d@) as int
            };
            if i64::MIN <= v <= i64::MAX {
                r == Some(v as i64)
            } else {
                r is None
            }
        }),
{
    let limit: u128 = 0x8000_0000_0000_0000u128;
    let mut acc: u128 = 0;
    let mut over = false;
    let mut i: usize = 0;
    while i < d.len()
        invariant
            limit == 0x8000_0000_0000_0000u128,
            i <= d@.len(),
            forall|j: int| 0 <= j < d@.len() ==> spec_is_digit(#[trigger] d@[j]),
            !over ==> acc == digits_value(d@.take(i as int)) && acc <= limit,
            over ==> digits_value(d@.take(i as int)) > limit,
        decreases d@.len() - i,
    {
        proof {
            lemma_digits_value_step(d@, i as int);
        }
        let c = d[i];
        let dv = (c as u32 - '0' as u32) as u128;
        if !over {
            acc = acc * 10 + dv;
            if acc > limit {
                over = true;
            }
        }
        i = i + 1;
    }
    assert(d@.take(i as int) =~= d@);
    if over {
        return None;
    }
    if neg {
        if acc == limit {
            Some(i64::MIN)
        } else {
            Some(-(acc as i64))
        }
    } else {
        if acc < limit {
            Some(acc as i64)
        } else {
            None
        }
    }
}

proof fn lemma_strip_zeros(d: Seq<char>, j: int)
    requires
        0 <= j <= d.len(),
        forall|k: int| 0 <= k < j ==> d[k] == '0',
        j == d.len() || d[j] != '0',
    ensures
        strip_zeros(d) == d.skip(j),
    decreases j,
{
    if j > 0 {
        lemma_strip_zeros(d.drop_first(), j - 1);
        assert(d.drop_first().skip(j - 1) =~= d.skip(j));
    } else {
        assert(d.skip(0) =~= d);
    }
}

/// `d` without its leading zeros.
fn strip_leading_zeros(d: &Vec<char>) -> (r: Vec<char>)
    ensures
        r@ == strip_zeros(d@),
{
    let mut j: usize = 0;
    while j < d.len() && d[j] == '0'
        invariant
            j <= d@.len(),
            forall|k: int| 0 <= k < j ==> d@[k] == '0',
        decreases d@.len() - j,
    {
        j = j + 1;
    }
    proof {
        lemma_strip_zeros(d@, j as int);
    }
    let n = d.len();
    let r = sub_chars(d, j, n);
    assert(r@ =~= d@.skip(j as int));
    r
}

fn is_all_zero(d: &Vec<char>) -> (r: bool)
    ensures
        r == all_zero(d@),
{
    let mut i: usize = 0;
    while i < d.len()
        invariant
            i <= d@.len(),
            forall|k: int| 0 <= k < i ==> d@[k] == '0',
        decreases d@.len() - i,
    {
        if d[i] != '0' {
            return false;
        }
        i = i + 1;
    }
    true
}

fn err_at(line: u32, column: u32, kind: ReadErrorKind) -> (e: ReadError)
    ensures
        e.kind == kind,
        e.line == line,
        e.column == column,
{
    ReadError { kind, line, column }
}

/// Consume an optional sign and the digits after it.
fn read_int_part(src: &mut Source) -> (res: (Vec<char>, usize, usize))
    requires
        old(src).wf(),
        old(src).has_room(),
    ensures
        res.1 == sign_len(old(src).rest()),
        res.1 + res.2 == int_end(old(src).rest()),
        res.0@ == old(src).rest().take(int_end(old(src).rest())),
        int_end(old(src).rest()) <= old(src).rest().len(),
        forall|j: int|
            sign_len(old(src).rest()) <= j < int_end(old(src).rest()) ==> spec_is_digit(
                #[trigger] old(src).rest()[j],
            ),
        int_end(old(src).rest()) < old(src).rest().len() ==> !spec_is_digit(
            old(src).rest()[int_end(old(src).rest())],
        ),
        *final(src) == old(src).advanced(int_end(old(src).rest()) as nat),
        final(src).rest() == old(src).rest().skip(int_end(old(src).rest())),
        final(src).wf(),
        final(src).has_room(),
{
    let ghost s0 = *src;
    let ghost r0 = src.rest();
    proof {
        s0.lemma_advanced(0);
    }
    let mut buf: Vec<char> = Vec::new();
    let mut sg: usize = 0;
    match src.peek() {
        Some(c) => {
            if c == '+' || c == '-' {
                proof {
                    src.lemma_step();
                    s0.lemma_advanced(1);
                }
                buf.push(c);
                src.advance();
                sg = 1;
            }
        },
        None => {},
    }
    proof {
        assert(buf@ =~= r0.take(sg as int));
        assert(src.rest() =~= r0.skip(sg as int));
        lemma_digit_run(r0.skip(sg as int));
    }
    let n1 = read_digits(src, &mut buf);
    proof {
        s0.lemma_advanced_add(sg as nat, n1 as nat);
        assert(buf@ =~= r0.take(sg + n1));
        s0.lemma_advanced((sg + n1) as nat);
        assert(src.rest() =~= r0.skip(sg + n1));
        assert forall|j: int| sg <= j < sg + n1 implies spec_is_digit(#[trigger] r0[j]) by {
            assert(r0[j] == r0.skip(sg as int)[j - sg]);
        }
        if sg + n1 < r0.len() {
            assert(r0[sg + n1] == r0.skip(sg as int)[n1 as int]);
        }
    }
    (buf, sg, n1)
}

/// Finish a ratio: the source is at the `/` that follows the integer part.
fn read_ratio_tail(
    src: &mut Source,
    buf: Vec<char>,
    n1: usize,
    start_line: u32,
    start_col: u32,
    Ghost(s0): Ghost<Source>,
) -> (r: Result<Form, ReadError>)
    requires
        s0.wf(),
        s0.has_room(),
        buf@ == s0.rest().take(int_end(s0.rest())),
        n1 == int_end(s0.rest()) - sign_len(s0.rest()),
        int_end(s0.rest()) < s0.rest().len(),
        s0.rest()[int_end(s0.rest())] == '/',
        *old(src) == s0.advanced(int_end(s0.rest()) as nat),
        old(src).rest() == s0.rest().skip(int_end(s0.rest())),
        old(src).wf(),
        old(src).has_room(),
        start_line == s0.spec_line(),
        start_col == s0.spec_column(),
    ensures
        form_outcome(s0, *final(src), r, ratio_scan(s0.rest())),
        scan_within(ratio_scan(s0.rest()), s0.rest().len()),
        final(src).wf(),
        final(src).has_room(),
{
    let ghost r0 = s0.rest();
    let ghost i1 = int_end(r0);
    proof {
        s0.lemma_advanced(0);
    }
    let second = src.peek_second();
    let second_is_digit = match second {
        Some(d) => is_digit(d),
        None => false,
    };
    if second_is_digit {
        proof {
            src.lemma_step();
            s0.lemma_advanced((i1 + 1) as nat);
            assert(src.rest().drop_first() =~= r0.skip(i1 + 1));
        }
        src.advance();
        let mut den: Vec<char> = Vec::new();
        proof {
            lemma_digit_run(r0.skip(i1 + 1));
        }
        let n2 = read_digits(src, &mut den);
        proof {
            s0.lemma_advanced_add((i1 + 1) as nat, n2 as nat);
            assert(den@ =~= r0.subrange(i1 + 1, i1 + 1 + n2));
        }
        if n1 == 0 {
            return Err(
                err_at(start_line, start_col, ReadErrorKind::InvalidInteger(chars_to_string(&buf))),
            );
        }
        if is_all_zero(&den) {
            return Err(err_at(start_line, start_col, ReadErrorKind::RatioDivideByZero));
        }
        let sg = buf.len() - n1;
        let num = sub_chars(&buf, sg, buf.len());
        let neg = sg == 1 && buf[0] == '-';
        proof {
            let sgs = sign_len(r0);
            assert(sg == sgs);
            assert(num@ =~= r0.subrange(sgs, i1));
            assert forall|j: int| 0 <= j < num@.len() implies spec_is_digit(#[trigger] num@[j]) by {
                lemma_digit_run(r0.skip(sgs));
                assert(num@[j] == r0.skip(sgs)[j]);
            }
            assert forall|j: int| 0 <= j < den@.len() implies spec_is_digit(#[trigger] den@[j]) by {
                assert(den@[j] == r0.skip(i1 + 1)[j]);
            }
            lemma_all_zero_value(den@);
            assert(neg == (sgs == 1 && r0[0] == '-'));
        }
        return Ok(finish_ratio(&num, neg, &den));
    }
    Err(err_at(start_line, start_col, ReadErrorKind::RatioMissingDigit))
}

/// A leading `-` before `t` when `neg`.
fn with_sign(neg: bool, t: &Vec<char>) -> (r: Vec<char>)
    ensures
        r@ == if neg {
            seq!['-'] + t@
        } else {
            t@
        },
{
    let mut text: Vec<char> = Vec::new();
    if neg {
        text.push('-');
    }
    let ghost pre = text@;
    let mut k: usize = 0;
    while k < t.len()
        invariant
            k <= t@.len(),
            text@ == pre + t@.take(k as int),
        decreases t@.len() - k,
    {
        text.push(t[k]);
        assert(pre + t@.take(k + 1) =~= (pre + t@.take(k as int)).push(t@[k as int]));
        k = k + 1;
    }
    assert(t@.take(k as int) =~= t@);
    assert(neg ==> pre =~= seq!['-']);
    assert(!neg ==> pre =~= Seq::<char>::empty());
    text
}

/// Digits that are all `0` are worth zero, and digits that are not are
/// worth more.
proof fn lemma_all_zero_value(d: Seq<char>)
    requires
        all_digits(d),
    ensures
        all_zero(d) == (digits_value(d) == 0),
{
    crate::reader::decimal::lemma_value_zero(d);
}

/// [`canonical`]: the digits of `d`'s value without leading zeros, `0`
/// for zero.
fn canonical_text(d: &Vec<char>) -> (r: Vec<char>)
    requires
        all_digits(d@),
    ensures
        r@ == canonical(digits_value(d@)),
{
    let t = strip_leading_zeros(d);
    proof {
        lemma_strip_value(d@);
        if digits_value(d@) > 0 {
            lemma_strip_canonical(d@);
        }
    }
    if t.len() == 0 {
        proof {
            if digits_value(d@) > 0 {
                assert(canonical(digits_value(d@)).len() > 0) by {
                    crate::reader::decimal::lemma_canonical_len(digits_value(d@));
                }
            }
            assert(canonical(0) == seq![crate::reader::decimal::digit_char_of(0)]);
        }
        let mut z: Vec<char> = Vec::new();
        z.push('0');
        proof {
            assert(z@ =~= seq!['0']);
        }
        z
    } else {
        proof {
            crate::reader::decimal::lemma_strip_shape(d@);
            if digits_value(d@) == 0 {
                crate::reader::decimal::lemma_canonical_unique(t@);
            }
        }
        t
    }
}

/// Does the digit string `d` have the value 1?
fn is_one(d: &Vec<char>) -> (r: bool)
    requires
        all_digits(d@),
    ensures
        r == (digits_value(d@) == 1),
{
    let t = strip_leading_zeros(d);
    proof {
        lemma_strip_value(d@);
        if digits_value(d@) == 1 {
            lemma_strip_canonical(d@);
            assert(canonical(1) == seq![crate::reader::decimal::digit_char_of(1)]);
        }
        if t@.len() == 1 && t@[0] == '1' {
            assert(t@ =~= seq!['1']);
            crate::reader::decimal::lemma_single('1');
        }
    }
    t.len() == 1 && t[0] == '1'
}

/// [`ratio_form`]: the ratio of the digits `num` to the digits `den`
/// (worth more than zero), negated when `neg`, in lowest terms.
pub fn finish_ratio(num: &Vec<char>, neg: bool, den: &Vec<char>) -> (f: Form)
    requires
        num@.len() > 0,
        all_digits(num@),
        all_digits(den@),
        digits_value(den@) > 0,
    ensures
        f@ == ratio_form(neg, digits_value(num@), digits_value(den@)),
{
    let ghost n = digits_value(num@);
    let ghost d = digits_value(den@);
    let g = gcd_digits(num, den);
    proof {
        lemma_gcd_pos(n, d);
    }
    let (a, _) = divmod_digits(num, &g);
    let (b, _) = divmod_digits(den, &g);
    let ghost av = digits_value(a@);
    let ghost bv = digits_value(b@);
    if is_one(&b) {
        let f = finish_integer(&a, neg);
        proof {
            let v: int = if neg {
                -av
            } else {
                av as int
            };
            if !(i64::MIN <= v <= i64::MAX) {
                assert(av > 0);
                lemma_strip_canonical(a@);
            }
        }
        f
    } else {
        let sa = canonical_text(&a);
        let sb = canonical_text(&b);
        Form::Ratio(chars_to_string(&with_sign(neg, &sa)), chars_to_string(&sb))
    }
}

/// The value of an integer's digits, as an `i64` or a canonical big integer.
fn finish_integer(digits: &Vec<char>, neg: bool) -> (f: Form)
    requires
        digits@.len() > 0,
        forall|j: int| 0 <= j < digits@.len() ==> spec_is_digit(#[trigger] digits@[j]),
    ensures
        ({
            let v: int = if neg {
                -digits_value(digits@)
            } else {
                digits_value(digits@) as int
            };
            if i64::MIN <= v <= i64::MAX {
                f@ == FormV::Int(v as i64)
            } else if neg {
                f@ == FormV::BigInt(seq!['-'] + strip_zeros(digits@))
            } else {
                f@ == FormV::BigInt(strip_zeros(digits@))
            }
        }),
{
    match digits_to_i64(digits, neg) {
        Some(v) => Form::Int(v),
        None => {
            let stripped = strip_leading_zeros(digits);
            let mut text: Vec<char> = Vec::new();
            if neg {
                text.push('-');
            }
            let ghost pre = text@;
            let mut k: usize = 0;
            while k < stripped.len()
                invariant
                    k <= stripped@.len(),
                    text@ == pre + stripped@.take(k as int),
                decreases stripped@.len() - k,
            {
                text.push(stripped[k]);
                assert(pre + stripped@.take(k + 1) =~= (pre + stripped@.take(k as int)).push(
                    stripped@[k as int],
                ));
                k = k + 1;
            }
            assert(stripped@.take(k as int) =~= stripped@);
            assert(neg ==> pre =~= seq!['-']);
            assert(!neg ==> pre =~= Seq::<char>::empty());
            assert(!neg ==> text@ =~= stripped@);
            Form::BigInt(chars_to_string(&text))
        },
    }
}

/// Consume the optional fraction `.digits` after the integer part;
/// returns the text read so far and whether there was a fraction.
fn read_frac(src: &mut Source, buf: Vec<char>, Ghost(s0): Ghost<Source>) -> (res: (Vec<char>, bool))
    requires
        s0.wf(),
        s0.has_room(),
        buf@ == s0.rest().take(int_end(s0.rest())),
        int_end(s0.rest()) <= s0.rest().len(),
        *old(src) == s0.advanced(int_end(s0.rest()) as nat),
        old(src).rest() == s0.rest().skip(int_end(s0.rest())),
        old(src).wf(),
        old(src).has_room(),
    ensures
        res.0@ == s0.rest().take(frac_end(s0.rest())),
        res.1 == (int_end(s0.rest()) < s0.rest().len() && s0.rest()[int_end(s0.rest())] == '.'),
        frac_end(s0.rest()) <= s0.rest().len(),
        *final(src) == s0.advanced(frac_end(s0.rest()) as nat),
        final(src).rest() == s0.rest().skip(frac_end(s0.rest())),
        final(src).wf(),
        final(src).has_room(),
{
    let ghost r0 = s0.rest();
    let ghost i1 = int_end(r0);
    let mut buf = buf;
    proof {
        s0.lemma_advanced(i1 as nat);
    }
    let mut dot = false;
    if src.peek() == Some('.') {
        dot = true;
        proof {
            src.lemma_step();
            s0.lemma_advanced((i1 + 1) as nat);
            assert(src.rest().drop_first() =~= r0.skip(i1 + 1));
        }
        buf.push('.');
        src.advance();
        proof {
            lemma_digit_run(r0.skip(i1 + 1));
        }
        let n = read_digits(src, &mut buf);
        proof {
            s0.lemma_advanced_add((i1 + 1) as nat, n as nat);
            assert(buf@ =~= r0.take(i1 + 1 + n));
            s0.lemma_advanced((i1 + 1 + n) as nat);
        }
    }
    proof {
        assert(buf@ =~= r0.take(frac_end(r0)));
        s0.lemma_advanced(frac_end(r0) as nat);
    }
    (buf, dot)
}

/// Consume the optional exponent after the fraction; returns the text
/// read so far, whether there was an exponent and where its digits start.
fn read_exp(src: &mut Source, buf: Vec<char>, Ghost(s0): Ghost<Source>) -> (res: (
    Vec<char>,
    bool,
    usize,
))
    requires
        s0.wf(),
        s0.has_room(),
        buf@ == s0.rest().take(frac_end(s0.rest())),
        frac_end(s0.rest()) <= s0.rest().len(),
        *old(src) == s0.advanced(frac_end(s0.rest()) as nat),
        old(src).rest() == s0.rest().skip(frac_end(s0.rest())),
        old(src).wf(),
        old(src).has_room(),
    ensures
        res.0@ == s0.rest().take(number_end(s0.rest())),
        res.1 == has_exp(s0.rest()),
        res.1 ==> res.2 == exp_digits_start(s0.rest()),
        number_end(s0.rest()) <= s0.rest().len(),
        *final(src) == s0.advanced(number_end(s0.rest()) as nat),
        final(src).wf(),
        final(src).has_room(),
{
    let ghost r0 = s0.rest();
    let i2 = buf.len();
    let mut buf = buf;
    proof {
        s0.lemma_advanced(i2 as nat);
    }
    let mut ex = false;
    let mut eds = i2;
    let e_next = src.peek();
    if e_next == Some('e') || e_next == Some('E') {
        ex = true;
        let e = match e_next {
            Some(e) => e,
            None => 'e',
        };
        proof {
            src.lemma_step();
            s0.lemma_advanced((i2 + 1) as nat);
            assert(src.rest().drop_first() =~= r0.skip(i2 + 1));
        }
        buf.push(e);
        src.advance();
        eds = buf.len();
        match src.peek() {
            Some(c) => {
                if c == '+' || c == '-' {
                    proof {
                        src.lemma_step();
                        s0.lemma_advanced((i2 + 2) as nat);
                        assert(src.rest().drop_first() =~= r0.skip(i2 + 2));
                    }
                    buf.push(c);
                    src.advance();
                    eds = buf.len();
                }
            },
            None => {},
        }
        proof {
            assert(eds == exp_digits_start(r0));
            assert(buf@ =~= r0.take(eds as int));
            assert(src.rest() =~= r0.skip(eds as int));
            lemma_digit_run(r0.skip(eds as int));
        }
        let n = read_digits(src, &mut buf);
        proof {
            s0.lemma_advanced_add(eds as nat, n as nat);
            assert(buf@ =~= r0.take(eds + n));
        }
    }
    proof {
        assert(buf@ =~= r0.take(number_end(r0)));
    }
    (buf, ex, eds)
}

/// Finish an integer or a double: no `/` follows the integer part.
fn read_decimal_tail(
    src: &mut Source,
    buf: Vec<char>,
    sg: usize,
    n1: usize,
    start_line: u32,
    start_col: u32,
    Ghost(s0): Ghost<Source>,
) -> (r: Result<Form, ReadError>)
    requires
        s0.wf(),
        s0.has_room(),
        buf@ == s0.rest().take(int_end(s0.rest())),
        sg == sign_len(s0.rest()),
        sg + n1 == int_end(s0.rest()),
        int_end(s0.rest()) <= s0.rest().len(),
        forall|j: int|
            sign_len(s0.rest()) <= j < int_end(s0.rest()) ==> spec_is_digit(#[trigger] s0.rest()[j]),
        !(int_end(s0.rest()) < s0.rest().len() && s0.rest()[int_end(s0.rest())] == '/'),
        *old(src) == s0.advanced(int_end(s0.rest()) as nat),
        old(src).rest() == s0.rest().skip(int_end(s0.rest())),
        old(src).wf(),
        old(src).has_room(),
        start_line == s0.spec_line(),
        start_col == s0.spec_column(),
    ensures
        form_outcome(s0, *final(src), r, decimal_scan(s0.rest())),
        scan_within(decimal_scan(s0.rest()), s0.rest().len()),
        final(src).wf(),
        final(src).has_room(),
{
    let ghost r0 = s0.rest();
    let ghost i1 = int_end(r0);
    proof {
        s0.lemma_advanced(0);
    }
    let (buf, dot) = read_frac(src, buf, Ghost(s0));
    let i2 = buf.len();
    let (buf, ex, eds) = read_exp(src, buf, Ghost(s0));
    let i3 = buf.len();
    if dot || ex {
        let frac_digits: usize = if dot {
            i2 - (sg + n1) - 1
        } else {
            0
        };
        let valid = (n1 + frac_digits > 0) && (!ex || i3 > eds);
        if valid {
            return Ok(Form::Float(chars_to_string(&buf)));
        } else {
            return Err(
                err_at(start_line, start_col, ReadErrorKind::InvalidFloat(chars_to_string(&buf))),
            );
        }
    }
    if n1 == 0 {
        return Err(
            err_at(start_line, start_col, ReadErrorKind::InvalidInteger(chars_to_string(&buf))),
        );
    }
    let digits = sub_chars(&buf, sg, sg + n1);
    let neg = sg == 1 && buf[0] == '-';
    proof {
        assert(digits@ =~= r0.subrange(sg as int, i1));
        assert forall|j: int| 0 <= j < digits@.len() implies spec_is_digit(#[trigger] digits@[j]) by {
            assert(digits@[j] == r0[j + sg]);
        }
    }
    Ok(finish_integer(&digits, neg))
}

/// Parse a number at the current position: an integer, a double (kept as
/// its literal text) or a ratio.
pub fn parse_number(src: &mut Source) -> (r: Result<Form, ReadError>)
    requires
        old(src).wf(),
        old(src).has_room(),
    ensures
        form_outcome(*old(src), *final(src), r, number_scan(old(src).rest())),
        scan_within(number_scan(old(src).rest()), old(src).rest().len()),
        final(src).wf(),
        final(src).has_room(),
{
    let ghost s0 = *src;
    let start_line = src.line();
    let start_col = src.column();
    let (buf, sg, n1) = read_int_part(src);
    if src.peek() == Some('/') {
        read_ratio_tail(src, buf, n1, start_line, start_col, Ghost(s0))
    } else {
        read_decimal_tail(src, buf, sg, n1, start_line, start_col, Ghost(s0))
    }
}

} // verus!
