//! Arithmetic on decimal digit strings of any length: subtraction, long
//! division and the greatest common divisor, which ratio literals need to
//! come out in lowest terms.

use vstd::prelude::*;
use crate::reader::lexer::spec_is_digit;
use crate::reader::number::{digit_value, digits_value, strip_zeros};

verus! {

/// Every character of `d` is a decimal digit.
pub open spec fn all_digits(d: Seq<char>) -> bool {
    forall|i: int| 0 <= i < d.len() ==> spec_is_digit(#[trigger] d[i])
}

/// `10` to the power `n`.
pub open spec fn p10(n: nat) -> nat
    decreases n,
{
    if n == 0 {
        1
    } else {
        10 * p10((n - 1) as nat)
    }
}

/// The greatest common divisor, by Euclid's algorithm.
pub open spec fn gcd(a: nat, b: nat) -> nat
    decreases b,
{
    if b == 0 {
        a
    } else {
        gcd(b, a % b)
    }
}

/// The digit character of `v` (below ten).
pub open spec fn digit_char_of(v: nat) -> char {
    (('0' as int) + v) as char
}

/// The decimal digits of `v` without leading zeros (`0` for zero).
pub open spec fn canonical(v: nat) -> Seq<char>
    decreases v,
{
    if v < 10 {
        seq![digit_char_of(v)]
    } else {
        canonical(v / 10).push(digit_char_of(v % 10))
    }
}

pub proof fn lemma_canonical_len(v: nat)
    ensures
        canonical(v).len() > 0,
    decreases v,
{
    if v >= 10 {
        lemma_canonical_len(v / 10);
    }
}

pub proof fn lemma_value_concat(x: Seq<char>, y: Seq<char>)
    ensures
        digits_value(x + y) == digits_value(x) * p10(y.len()) + digits_value(y),
    decreases y.len(),
{
    if y.len() == 0 {
        assert(x + y =~= x);
        assert(digits_value(y) == 0);
        assert(p10(y.len()) == 1);
        let vx = digits_value(x);
        assert(vx * p10(y.len()) == vx) by (nonlinear_arith)
            requires
                p10(y.len()) == 1,
        ;
    } else {
        let y0 = y.drop_last();
        lemma_value_concat(x, y0);
        assert((x + y).drop_last() =~= x + y0);
        assert((x + y).last() == y.last());
        let vx = digits_value(x);
        let p = p10(y0.len());
        let vy0 = digits_value(y0);
        let c = digit_value(y.last());
        assert(digits_value(x + y) == digits_value(x + y0) * 10 + c);
        assert(digits_value(y) == vy0 * 10 + c);
        assert(p10(y.len()) == 10 * p);
        assert((vx * p + vy0) * 10 == vx * (10 * p) + vy0 * 10) by (nonlinear_arith);
        assert(digits_value(x + y0) == vx * p + vy0);
        assert(digits_value(x + y) == vx * (10 * p) + vy0 * 10 + c);
        assert(digits_value(x + y) == digits_value(x) * p10(y.len()) + digits_value(y));
    }
}

pub proof fn lemma_value_bound(s: Seq<char>)
    requires
        all_digits(s),
    ensures
        digits_value(s) < p10(s.len()),
    decreases s.len(),
{
    if s.len() > 0 {
        let s0 = s.drop_last();
        lemma_value_bound(s0);
        assert(spec_is_digit(s[s.len() - 1]));
        let v0 = digits_value(s0);
        let p = p10(s0.len());
        let c = digit_value(s.last());
        assert(v0 * 10 + c < 10 * p) by (nonlinear_arith)
            requires
                v0 < p,
                c < 10,
        ;
    }
}

pub proof fn lemma_single(c: char)
    ensures
        digits_value(seq![c]) == digit_value(c),
{
    assert(seq![c].drop_last() =~= Seq::<char>::empty());
    assert(digits_value(Seq::<char>::empty()) == 0);
    assert(seq![c].last() == c);
}

/// A digit string is worth zero exactly when all its digits are `0`.
pub proof fn lemma_value_zero(s: Seq<char>)
    requires
        all_digits(s),
    ensures
        (digits_value(s) == 0) == (forall|i: int| 0 <= i < s.len() ==> s[i] == '0'),
    decreases s.len(),
{
    if s.len() > 0 {
        let s0 = s.drop_last();
        lemma_value_zero(s0);
        assert(spec_is_digit(s[s.len() - 1]));
        if digits_value(s) == 0 {
            assert forall|i: int| 0 <= i < s.len() implies s[i] == '0' by {
                if i < s.len() - 1 {
                    assert(s0[i] == s[i]);
                }
            }
        }
        if forall|i: int| 0 <= i < s.len() ==> s[i] == '0' {
            assert forall|i: int| 0 <= i < s0.len() implies s0[i] == '0' by {
                assert(s0[i] == s[i]);
            }
            assert(s[s.len() - 1] == '0');
        }
    }
}

/// A leading zero adds nothing.
pub proof fn lemma_zero_lead(s: Seq<char>)
    requires
        s.len() > 0,
        s[0] == '0',
    ensures
        digits_value(s) == digits_value(s.drop_first()),
{
    lemma_value_concat(seq![s[0]], s.drop_first());
    lemma_single(s[0]);
    assert(seq![s[0]] + s.drop_first() =~= s);
    let p = p10(s.drop_first().len());
    assert(digit_value('0') == 0);
    assert(0 * p == 0) by (nonlinear_arith);
}

/// What is left after the leading zeros starts with another digit.
pub proof fn lemma_strip_shape(s: Seq<char>)
    requires
        all_digits(s),
    ensures
        all_digits(strip_zeros(s)),
        strip_zeros(s).len() > 0 ==> strip_zeros(s)[0] != '0',
    decreases s.len(),
{
    if s.len() > 0 && s[0] == '0' {
        assert forall|i: int| 0 <= i < s.drop_first().len() implies spec_is_digit(#[trigger] s.drop_first()[i]) by {
            assert(s.drop_first()[i] == s[i + 1]);
        }
        lemma_strip_shape(s.drop_first());
    }
}

/// Leading zeros add nothing.
pub proof fn lemma_strip_value(s: Seq<char>)
    ensures
        digits_value(strip_zeros(s)) == digits_value(s),
    decreases s.len(),
{
    if s.len() > 0 && s[0] == '0' {
        lemma_strip_value(s.drop_first());
        lemma_zero_lead(s);
    }
}

/// The digits of a positive value without leading zeros are its canonical
/// digits.
pub proof fn lemma_canonical_unique(t: Seq<char>)
    requires
        all_digits(t),
        t.len() > 0,
        t[0] != '0',
    ensures
        t == canonical(digits_value(t)),
        digits_value(t) > 0,
    decreases t.len(),
{
    let c = t.last();
    assert(spec_is_digit(t[t.len() - 1]));
    if t.len() == 1 {
        lemma_single(t[0]);
        assert(t =~= seq![t[0]]);
        assert(digit_char_of(digit_value(t[0])) == t[0]);
    } else {
        let t0 = t.drop_last();
        assert(t0[0] == t[0]);
        lemma_canonical_unique(t0);
        let v0 = digits_value(t0);
        let v = digits_value(t);
        assert(v == v0 * 10 + digit_value(c));
        assert(v / 10 == v0 && v % 10 == digit_value(c)) by {
            vstd::arithmetic::div_mod::lemma_fundamental_div_mod_converse(
                v as int,
                10,
                v0 as int,
                digit_value(c) as int,
            );
        }
        assert(digit_char_of(digit_value(c)) == c);
        assert(canonical(v) == canonical(v0).push(c));
        assert(t =~= t0.push(c));
    }
}

/// A digit string without its leading zeros, when it is worth more than
/// zero, is the canonical text of its value.
pub proof fn lemma_strip_canonical(s: Seq<char>)
    requires
        all_digits(s),
        digits_value(s) > 0,
    ensures
        strip_zeros(s) == canonical(digits_value(s)),
    decreases s.len(),
{
    if s.len() > 0 && s[0] == '0' {
        lemma_zero_lead(s);
        lemma_strip_canonical(s.drop_first());
    } else {
        if s.len() == 0 {
            assert(digits_value(s) == 0);
        }
        lemma_canonical_unique(s);
    }
}

pub proof fn lemma_gcd_pos(a: nat, b: nat)
    requires
        b > 0,
    ensures
        gcd(a, b) > 0,
    decreases b,
{
    if a % b > 0 {
        lemma_gcd_pos(b, a % b);
    } else {
        assert(gcd(b, 0) == b);
    }
}

/// The canonical digits of `v` are digits and are worth `v`.
pub proof fn lemma_canonical_value(v: nat)
    ensures
        all_digits(canonical(v)),
        digits_value(canonical(v)) == v,
        canonical(v).len() > 0,
    decreases v,
{
    if v < 10 {
        lemma_single(digit_char_of(v));
        assert(digit_value(digit_char_of(v)) == v);
    } else {
        lemma_canonical_value(v / 10);
        let c = digit_char_of(v % 10);
        let t = canonical(v / 10);
        assert(canonical(v) == t.push(c));
        assert(t.push(c).drop_last() =~= t);
        assert(digit_value(c) == v % 10);
        assert forall|i: int| 0 <= i < t.push(c).len() implies spec_is_digit(#[trigger] t.push(c)[i]) by {
            if i < t.len() {
                assert(t.push(c)[i] == t[i]);
            }
        }
    }
}

/// Appends the canonical digits of `v` to `out`.
pub fn push_canonical(out: &mut Vec<char>, v: u128)
    ensures
        final(out)@ == old(out)@ + canonical(v as nat),
    decreases v,
{
    if v < 10 {
        let c = digit_char(v as u8);
        out.push(c);
        assert(old(out)@ + canonical(v as nat) =~= old(out)@.push(c));
    } else {
        push_canonical(out, v / 10);
        let c = digit_char((v % 10) as u8);
        let ghost mid = out@;
        out.push(c);
        assert(digit_char_of((v % 10) as nat) == c);
        assert(old(out)@ + canonical(v as nat) =~= (old(out)@ + canonical((v / 10) as nat)).push(c));
    }
}

/// The digit character for `q`.
fn digit_char(q: u8) -> (c: char)
    requires
        q < 10,
    ensures
        spec_is_digit(c),
        digit_value(c) == q,
{
    match q {
        0 => '0',
        1 => '1',
        2 => '2',
        3 => '3',
        4 => '4',
        5 => '5',
        6 => '6',
        7 => '7',
        8 => '8',
        _ => '9',
    }
}

/// The value of the digit character `c`.
fn char_digit(c: char) -> (q: u8)
    requires
        spec_is_digit(c),
    ensures
        q == digit_value(c),
        q < 10,
{
    ((c as u32) - ('0' as u32)) as u8
}

/// `n` zeros.
fn zeros(n: usize) -> (r: Vec<char>)
    ensures
        r@.len() == n,
        all_digits(r@),
        digits_value(r@) == 0,
{
    let mut r: Vec<char> = Vec::new();
    let mut i: usize = 0;
    while i < n
        invariant
            i <= n,
            r@.len() == i,
            forall|k: int| 0 <= k < i ==> r@[k] == '0',
        decreases n - i,
    {
        r.push('0');
        i = i + 1;
    }
    proof {
        lemma_value_zero(r@);
    }
    r
}

/// `a - b` digit by digit (both `n` long): the `n` digits of the difference
/// and whether it borrowed past the front, which it does exactly when
/// `a < b`.
fn sub_digits(a: &Vec<char>, b: &Vec<char>) -> (r: (Vec<char>, bool))
    requires
        a@.len() == b@.len(),
        all_digits(a@),
        all_digits(b@),
    ensures
        r.0@.len() == a@.len(),
        all_digits(r.0@),
        r.1 == (digits_value(a@) < digits_value(b@)),
        !r.1 ==> digits_value(r.0@) == digits_value(a@) - digits_value(b@),
{
    let n = a.len();
    let mut res = zeros(n);
    let mut borrow = false;
    let mut i: usize = n;
    proof {
        assert(a@.skip(n as int) =~= Seq::<char>::empty());
        assert(b@.skip(n as int) =~= Seq::<char>::empty());
        assert(res@.skip(n as int) =~= Seq::<char>::empty());
    }
    while i > 0
        invariant
            i <= n,
            n == a@.len(),
            n == b@.len(),
            all_digits(a@),
            all_digits(b@),
            res@.len() == n,
            all_digits(res@),
            digits_value(a@.skip(i as int)) + (if borrow {
                p10((n - i) as nat)
            } else {
                0
            }) == digits_value(b@.skip(i as int)) + digits_value(res@.skip(i as int)),
        decreases i,
    {
        let ghost res0 = res@;
        let ghost bin: int = if borrow {
            1
        } else {
            0
        };
        i = i - 1;
        let x = char_digit(a[i]) as i16;
        let y = char_digit(b[i]) as i16;
        let mut t: i16 = x - y - (if borrow {
            1
        } else {
            0
        });
        if t < 0 {
            t = t + 10;
            borrow = true;
        } else {
            borrow = false;
        }
        let dc = digit_char(t as u8);
        res.set(i, dc);
        proof {
            let bo: int = if borrow {
                1
            } else {
                0
            };
            let p = p10((n - i - 1) as nat);
            assert(p10((n - i) as nat) == 10 * p);
            assert(a@.skip(i as int) =~= seq![a@[i as int]] + a@.skip(i + 1));
            assert(b@.skip(i as int) =~= seq![b@[i as int]] + b@.skip(i + 1));
            assert(res@.skip(i + 1) =~= res0.skip(i + 1));
            assert(res@.skip(i as int) =~= seq![dc] + res@.skip(i + 1));
            lemma_value_concat(seq![a@[i as int]], a@.skip(i + 1));
            lemma_value_concat(seq![b@[i as int]], b@.skip(i + 1));
            lemma_value_concat(seq![dc], res@.skip(i + 1));
            lemma_single(a@[i as int]);
            lemma_single(b@[i as int]);
            lemma_single(dc);
            let ai = digit_value(a@[i as int]) as int;
            let bi = digit_value(b@[i as int]) as int;
            let ri = digit_value(dc) as int;
            assert(ai - bi - bin + 10 * bo == ri);
            assert(ai * p + 10 * bo * p == bi * p + ri * p + bin * p) by (nonlinear_arith)
                requires
                    ai - bi - bin + 10 * bo == ri,
            ;
            assert forall|k: int| 0 <= k < res@.len() implies spec_is_digit(#[trigger] res@[k]) by {
                if k != i {
                    assert(res@[k] == res0[k]);
                }
            }
        }
    }
    proof {
        assert(a@.skip(0) =~= a@);
        assert(b@.skip(0) =~= b@);
        assert(res@.skip(0) =~= res@);
        lemma_value_bound(res@);
        lemma_value_bound(a@);
    }
    (res, borrow)
}

/// Long division of `a` by `d` (worth more than zero): the quotient, as many
/// digits as `a`, and the remainder, as many digits as `d`.
pub fn divmod_digits(a: &Vec<char>, d: &Vec<char>) -> (r: (Vec<char>, Vec<char>))
    requires
        all_digits(a@),
        all_digits(d@),
        digits_value(d@) > 0,
    ensures
        all_digits(r.0@),
        all_digits(r.1@),
        r.0@.len() == a@.len(),
        r.1@.len() == d@.len(),
        digits_value(r.0@) == digits_value(a@) / digits_value(d@),
        digits_value(r.1@) == digits_value(a@) % digits_value(d@),
{
    let ghost dv = digits_value(d@);
    let m = d.len();
    let mut dpad: Vec<char> = Vec::new();
    dpad.push('0');
    let mut k: usize = 0;
    while k < m
        invariant
            k <= m,
            m == d@.len(),
            dpad@ == seq!['0'] + d@.take(k as int),
        decreases m - k,
    {
        dpad.push(d[k]);
        proof {
            assert(d@.take(k + 1) =~= d@.take(k as int).push(d@[k as int]));
        }
        k = k + 1;
    }
    proof {
        assert(d@.take(m as int) =~= d@);
        assert(dpad@ =~= seq!['0'] + d@);
        lemma_zero_lead(dpad@);
        assert(dpad@.drop_first() =~= d@);
        assert(digits_value(dpad@) == dv);
        assert(all_digits(dpad@)) by {
            assert forall|i: int| 0 <= i < dpad@.len() implies spec_is_digit(#[trigger] dpad@[i]) by {
                if i > 0 {
                    assert(dpad@[i] == d@[i - 1]);
                }
            }
        }
        assert(d@.len() > 0) by {
            if d@.len() == 0 {
                assert(digits_value(d@) == 0);
            }
        }
        lemma_value_bound(d@);
    }
    let mut rem = zeros(m);
    let mut q: Vec<char> = Vec::new();
    let mut i: usize = 0;
    proof {
        assert(a@.take(0) =~= Seq::<char>::empty());
        assert(q@ =~= Seq::<char>::empty());
        assert(digits_value(a@.take(0)) == 0);
        assert(digits_value(q@) == 0);
        assert(0 * dv == 0) by (nonlinear_arith);
    }
    while i < a.len()
        invariant
            i <= a@.len(),
            all_digits(a@),
            all_digits(d@),
            dv == digits_value(d@),
            dv > 0,
            dv < p10(m as nat),
            m == d@.len(),
            m > 0,
            dpad@.len() == m + 1,
            all_digits(dpad@),
            digits_value(dpad@) == dv,
            rem@.len() == m,
            all_digits(rem@),
            digits_value(rem@) < dv,
            q@.len() == i,
            all_digits(q@),
            digits_value(a@.take(i as int)) == digits_value(q@) * dv + digits_value(rem@),
        decreases a@.len() - i,
    {
        let ghost r0 = digits_value(rem@);
        let ghost q0 = digits_value(q@);
        let c = a[i];
        let mut cur = rem;
        cur.push(c);
        let ghost x: nat = digits_value(cur@);
        proof {
            assert(cur@.drop_last() =~= rem@);
            assert(spec_is_digit(a@[i as int]));
            assert(x == r0 * 10 + digit_value(c));
            assert(x < 10 * dv) by (nonlinear_arith)
                requires
                    x == r0 * 10 + digit_value(c),
                    r0 < dv,
                    digit_value(c) < 10,
            ;
            assert(all_digits(cur@)) by {
                assert forall|j: int| 0 <= j < cur@.len() implies spec_is_digit(#[trigger] cur@[j]) by {
                    if j < m {
                        assert(cur@[j] == rem@[j]);
                    }
                }
            }
        }
        let mut qd: u8 = 0;
        loop
            invariant
                cur@.len() == m + 1,
                all_digits(cur@),
                dpad@.len() == m + 1,
                all_digits(dpad@),
                digits_value(dpad@) == dv,
                dv > 0,
                x < 10 * dv,
                qd < 10,
                digits_value(cur@) + qd * dv == x,
            ensures
                cur@.len() == m + 1,
                all_digits(cur@),
                qd < 10,
                digits_value(cur@) + qd * dv == x,
                digits_value(cur@) < dv,
            decreases digits_value(cur@),
        {
            let (diff, borrow) = sub_digits(&cur, &dpad);
            if borrow {
                break;
            }
            proof {
                let vc = digits_value(cur@);
                assert(qd + 1 < 10) by (nonlinear_arith)
                    requires
                        vc + qd * dv == x,
                        x < 10 * dv,
                        vc >= dv,
                        dv > 0,
                ;
                assert(digits_value(diff@) + (qd + 1) * dv == x) by (nonlinear_arith)
                    requires
                        digits_value(diff@) == vc - dv,
                        vc + qd * dv == x,
                ;
            }
            cur = diff;
            qd = qd + 1;
        }
        proof {
            lemma_value_bound(cur@.skip(1));
            assert(cur@ =~= seq![cur@[0]] + cur@.skip(1));
            lemma_value_concat(seq![cur@[0]], cur@.skip(1));
            lemma_single(cur@[0]);
            assert(spec_is_digit(cur@[0]));
            let lead = digit_value(cur@[0]);
            let pm = p10(m as nat);
            assert(cur@.skip(1).len() == m);
            assert(lead == 0) by (nonlinear_arith)
                requires
                    lead * pm + digits_value(cur@.skip(1)) == digits_value(cur@),
                    digits_value(cur@) < dv,
                    dv < pm,
            ;
        }
        rem = crate::text::sub_chars(&cur, 1, m + 1);
        let dc = digit_char(qd);
        let ghost q_before = q@;
        q.push(dc);
        proof {
            assert(rem@ =~= cur@.skip(1));
            lemma_zero_lead(cur@);
            assert(cur@.drop_first() =~= rem@);
            assert(q@.drop_last() =~= q_before);
            assert(a@.take(i + 1).drop_last() =~= a@.take(i as int));
            let qn = digits_value(q@);
            assert(qn == q0 * 10 + qd);
            let rn = digits_value(rem@);
            assert(digits_value(a@.take(i + 1)) == digits_value(a@.take(i as int)) * 10 + digit_value(c));
            assert(digits_value(a@.take(i + 1)) == qn * dv + rn) by (nonlinear_arith)
                requires
                    digits_value(a@.take(i as int)) == q0 * dv + r0,
                    digits_value(a@.take(i + 1)) == digits_value(a@.take(i as int)) * 10 + digit_value(c),
                    x == r0 * 10 + digit_value(c),
                    rn + qd * dv == x,
                    qn == q0 * 10 + qd,
            ;
            assert forall|j: int| 0 <= j < q@.len() implies spec_is_digit(#[trigger] q@[j]) by {
                if j < i {
                    assert(q@[j] == q_before[j]);
                }
            }
            assert forall|j: int| 0 <= j < rem@.len() implies spec_is_digit(#[trigger] rem@[j]) by {
                assert(rem@[j] == cur@[j + 1]);
            }
        }
        i = i + 1;
    }
    proof {
        assert(a@.take(a@.len() as int) =~= a@);
        vstd::arithmetic::div_mod::lemma_fundamental_div_mod_converse(
            digits_value(a@) as int,
            dv as int,
            digits_value(q@) as int,
            digits_value(rem@) as int,
        );
    }
    (q, rem)
}

/// Is every digit `0`, so that the value is zero?
fn is_zero(d: &Vec<char>) -> (r: bool)
    requires
        all_digits(d@),
    ensures
        r == (digits_value(d@) == 0),
{
    proof {
        lemma_value_zero(d@);
    }
    let mut i: usize = 0;
    while i < d.len()
        invariant
            i <= d@.len(),
            all_digits(d@),
            forall|k: int| 0 <= k < i ==> d@[k] == '0',
        decreases d@.len() - i,
    {
        if d[i] != '0' {
            proof {
                lemma_value_zero(d@);
            }
            return false;
        }
        i = i + 1;
    }
    true
}

/// The greatest common divisor of the values of `a` and `b`.
pub fn gcd_digits(a: &Vec<char>, b: &Vec<char>) -> (g: Vec<char>)
    requires
        all_digits(a@),
        all_digits(b@),
    ensures
        all_digits(g@),
        digits_value(g@) == gcd(digits_value(a@), digits_value(b@)),
{
    let mut x = crate::text::sub_chars(a, 0, a.len());
    let mut y = crate::text::sub_chars(b, 0, b.len());
    proof {
        assert(x@ =~= a@);
        assert(y@ =~= b@);
    }
    while !is_zero(&y)
        invariant
            all_digits(x@),
            all_digits(y@),
            gcd(digits_value(x@), digits_value(y@)) == gcd(digits_value(a@), digits_value(b@)),
        decreases digits_value(y@),
    {
        let (_, r) = divmod_digits(&x, &y);
        x = y;
        y = r;
    }
    x
}

} // verus!
