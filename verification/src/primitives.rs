//! The runtime's primitives on plain integers: exact arithmetic (a result
//! past `i64` comes out as a big integer), `quot` and `rem` truncating toward
//! zero, `divide` giving an exact ratio, shifts and single-bit operations,
//! and the 32-bit wrapping `unchecked-*-int` arithmetic.

use vstd::prelude::*;
use vstd::arithmetic::power2::pow2;
use crate::reader::decimal::{canonical, lemma_canonical_value, push_canonical};
use crate::reader::form::{Form, FormV};
use crate::reader::number::{digits_value, finish_ratio, int_form, ratio_form};
use crate::text::chars_to_string;

verus! {

/// Why an arithmetic primitive refused its arguments.
#[derive(PartialEq, Eq, Structural, Clone, Copy, Debug)]
pub enum ArithError {
    /// Integer division or remainder by zero.
    DivideByZero,
    /// A shift by a negative number of bits.
    NegativeShift,
}

/// The magnitude of `a`.
pub open spec fn abs_int(a: int) -> nat {
    if a < 0 {
        (-a) as nat
    } else {
        a as nat
    }
}

/// Integer division truncating toward zero.
pub open spec fn trunc_div(a: int, b: int) -> int {
    let q = (abs_int(a) / abs_int(b)) as int;
    if (a < 0) != (b < 0) {
        -q
    } else {
        q
    }
}

/// The remainder of [`trunc_div`]: it has the sign of the dividend.
pub open spec fn trunc_rem(a: int, b: int) -> int {
    a - b * trunc_div(a, b)
}

/// [`int_form`]: `v` as an integer form, an `i64` when it fits.
pub fn int_form_exec(v: i128) -> (f: Form)
    requires
        v > i128::MIN,
    ensures
        f@ == int_form(v as int),
{
    if i64::MIN as i128 <= v && v <= i64::MAX as i128 {
        Form::Int(v as i64)
    } else {
        let m: u128 = if v < 0 {
            (-v) as u128
        } else {
            v as u128
        };
        let mut digits: Vec<char> = Vec::new();
        if v < 0 {
            digits.push('-');
        }
        push_canonical(&mut digits, m);
        proof {
            if v < 0 {
                assert(digits@ =~= seq!['-'] + canonical(m as nat));
                assert(m as int == -v);
            } else {
                assert(digits@ =~= canonical(m as nat));
            }
        }
        Form::BigInt(chars_to_string(&digits))
    }
}

/// The magnitude of `a`, as a `u128`.
fn magnitude(a: i64) -> (m: u128)
    ensures
        m == abs_int(a as int),
        m <= 0x8000_0000_0000_0000,
{
    if a < 0 {
        (-(a as i128)) as u128
    } else {
        a as u128
    }
}

/// `(+ a b)` on integers.
pub fn int_add(a: i64, b: i64) -> (f: Form)
    ensures
        f@ == int_form(a + b),
{
    int_form_exec(a as i128 + b as i128)
}

/// `(- a b)` on integers.
pub fn int_subtract(a: i64, b: i64) -> (f: Form)
    ensures
        f@ == int_form(a - b),
{
    int_form_exec(a as i128 - b as i128)
}

/// `(* a b)` on integers.
pub fn int_multiply(a: i64, b: i64) -> (f: Form)
    ensures
        f@ == int_form(a * b),
{
    let x = a as i128;
    let y = b as i128;
    assert(-0x4000_0000_0000_0000_0000_0000_0000_0000 <= x * y <= 0x4000_0000_0000_0000_0000_0000_0000_0000)
        by (nonlinear_arith)
        requires
            -0x8000_0000_0000_0000 <= x <= 0x8000_0000_0000_0000,
            -0x8000_0000_0000_0000 <= y <= 0x8000_0000_0000_0000,
    ;
    int_form_exec(x * y)
}

/// `(inc a)` on an integer.
pub fn int_inc(a: i64) -> (f: Form)
    ensures
        f@ == int_form(a + 1),
{
    int_form_exec(a as i128 + 1)
}

/// `(dec a)` on an integer.
pub fn int_dec(a: i64) -> (f: Form)
    ensures
        f@ == int_form(a - 1),
{
    int_form_exec(a as i128 - 1)
}

/// `(- a)` on an integer.
pub fn int_negate(a: i64) -> (f: Form)
    ensures
        f@ == int_form(-a),
{
    int_form_exec(-(a as i128))
}

/// `(abs a)` on an integer.
pub fn int_abs(a: i64) -> (f: Form)
    ensures
        f@ == int_form(abs_int(a as int) as int),
{
    int_form_exec(magnitude(a) as i128)
}

/// The quotient of the magnitudes, with the sign [`trunc_div`] gives it.
fn trunc_quot(a: i64, b: i64) -> (q: i128)
    requires
        b != 0,
    ensures
        q == trunc_div(a as int, b as int),
        -0x8000_0000_0000_0000 <= q <= 0x8000_0000_0000_0000,
{
    let ua = magnitude(a);
    let ub = magnitude(b);
    let m = ua / ub;
    assert(m <= ua) by (nonlinear_arith)
        requires
            m == ua / ub,
            ub > 0,
    ;
    if (a < 0) != (b < 0) {
        -(m as i128)
    } else {
        m as i128
    }
}

/// `(quot a b)`: the quotient truncated toward zero; division by zero is
/// refused.
pub fn rt_quot(a: i64, b: i64) -> (r: Result<Form, ArithError>)
    ensures
        match r {
            Ok(f) => b != 0 && f@ == int_form(trunc_div(a as int, b as int)),
            Err(e) => b == 0 && e == ArithError::DivideByZero,
        },
{
    if b == 0 {
        return Err(ArithError::DivideByZero);
    }
    Ok(int_form_exec(trunc_quot(a, b)))
}

/// `(rem a b)`: what is left of `a` after [`rt_quot`]; it has the sign of
/// `a` and is smaller than `b` in magnitude. Division by zero is refused.
pub fn rt_rem(a: i64, b: i64) -> (r: Result<i64, ArithError>)
    ensures
        match r {
            Ok(v) => b != 0 && v == trunc_rem(a as int, b as int),
            Err(e) => b == 0 && e == ArithError::DivideByZero,
        },
{
    if b == 0 {
        return Err(ArithError::DivideByZero);
    }
    let q = trunc_quot(a, b);
    let ghost ua = abs_int(a as int);
    let ghost ub = abs_int(b as int);
    let ghost m = ua / ub;
    proof {
        vstd::arithmetic::div_mod::lemma_fundamental_div_mod(ua as int, ub as int);
        let t = ua % ub;
        assert(0 <= t < ub);
        assert(ua == ub * m + t);
        let bq = (b as int) * (q as int);
        if (a < 0) != (b < 0) {
            assert(q == -m);
            if a < 0 {
                assert(bq == -(ub * m)) by (nonlinear_arith)
                    requires b == ub, q == -m, bq == (b as int) * (q as int);
            } else {
                assert(bq == ub * m) by (nonlinear_arith)
                    requires b == -ub, q == -m, bq == (b as int) * (q as int);
            }
        } else {
            assert(q == m);
            if a < 0 {
                assert(bq == -(ub * m)) by (nonlinear_arith)
                    requires b == -ub, q == m, bq == (b as int) * (q as int);
            } else {
                assert(bq == ub * m) by (nonlinear_arith)
                    requires b == ub, q == m, bq == (b as int) * (q as int);
            }
        }
        assert(a as int - bq == t || a as int - bq == -t);
        assert(-0x8000_0000_0000_0000 <= bq <= 0x8000_0000_0000_0000_0000_0000_0000_0000);
    }
    let r = a as i128 - (b as i128) * q;
    assert(r == trunc_rem(a as int, b as int));
    Ok(r as i64)
}

/// `(/ n d)` on integers: the exact ratio in lowest terms, an integer when
/// `d` divides `n`; division by zero is refused.
pub fn rt_divide(n: i64, d: i64) -> (r: Result<Form, ArithError>)
    ensures
        match r {
            Ok(f) => d != 0 && f@ == ratio_form((n < 0) != (d < 0), abs_int(n as int), abs_int(d as int)),
            Err(e) => d == 0 && e == ArithError::DivideByZero,
        },
{
    if d == 0 {
        return Err(ArithError::DivideByZero);
    }
    let mut num: Vec<char> = Vec::new();
    push_canonical(&mut num, magnitude(n));
    let mut den: Vec<char> = Vec::new();
    push_canonical(&mut den, magnitude(d));
    proof {
        assert(num@ =~= canonical(abs_int(n as int)));
        assert(den@ =~= canonical(abs_int(d as int)));
        lemma_canonical_value(abs_int(n as int));
        lemma_canonical_value(abs_int(d as int));
    }
    Ok(finish_ratio(&num, (n < 0) != (d < 0), &den))
}

/// The low 32 bits of `x`, as a two's-complement `i32`.
pub fn low_i32(x: i64) -> (r: i32)
    ensures
        r as int == (if (x as int) % 0x1_0000_0000 >= 0x8000_0000 {
            (x as int) % 0x1_0000_0000 - 0x1_0000_0000
        } else {
            (x as int) % 0x1_0000_0000
        }),
{
    let m: i64 = x % 0x1_0000_0000;
    let u: i64 = if m < 0 {
        m + 0x1_0000_0000
    } else {
        m
    };
    assert(u == (x as int) % 0x1_0000_0000);
    if u >= 0x8000_0000 {
        (u - 0x1_0000_0000) as i32
    } else {
        u as i32
    }
}

/// `a + b` wrapped to 32 bits (`unchecked-add-int`).
pub fn unchecked_add_int(a: i32, b: i32) -> (r: i32)
    ensures
        r == a.wrapping_add(b),
{
    a.wrapping_add(b)
}

/// `a - b` wrapped to 32 bits (`unchecked-subtract-int`).
pub fn unchecked_subtract_int(a: i32, b: i32) -> (r: i32)
    ensures
        r == a.wrapping_sub(b),
{
    a.wrapping_sub(b)
}

/// `a * b` wrapped to 32 bits (`unchecked-multiply-int`).
pub fn unchecked_multiply_int(a: i32, b: i32) -> (r: i32)
    ensures
        r == a.wrapping_mul(b),
{
    a.wrapping_mul(b)
}


/// `2` to the power `n`.
fn pow2_exec(n: i64) -> (p: u128)
    requires
        0 <= n < 64,
    ensures
        p == pow2(n as nat),
        0 < p <= 0x8000_0000_0000_0000,
{
    let mut p: u128 = 1;
    let mut i: i64 = 0;
    proof {
        vstd::arithmetic::power2::lemma2_to64();
    }
    while i < n
        invariant
            0 <= i <= n < 64,
            p == pow2(i as nat),
        decreases n - i,
    {
        proof {
            vstd::arithmetic::power2::lemma_pow2_unfold((i + 1) as nat);
            vstd::arithmetic::power2::lemma_pow2_strictly_increases((i + 1) as nat, 64);
            vstd::arithmetic::power2::lemma2_to64();
        }
        p = p * 2;
        i = i + 1;
    }
    proof {
        vstd::arithmetic::power2::lemma_pow2_pos(n as nat);
        if n < 63 {
            vstd::arithmetic::power2::lemma_pow2_strictly_increases(n as nat, 63);
        }
        vstd::arithmetic::power2::lemma2_to64_rest();
    }
    p
}

/// Bit `n` of `a` (two's complement, as far out as needed).
pub open spec fn bit_of(a: int, n: nat) -> bool {
    (a / (pow2(n) as int)) % 2 == 1
}

/// `a` taken as an unsigned 64-bit number.
pub open spec fn unsigned_of(a: i64) -> nat {
    if a < 0 {
        (a + 0x1_0000_0000_0000_0000) as nat
    } else {
        a as nat
    }
}

/// `(bit-shift-left a n)` for shifts below 64 bits: `a * 2^n`; a negative
/// count is refused.
pub fn rt_shift_left(a: i64, n: i64) -> (r: Result<Form, ArithError>)
    requires
        n < 64,
    ensures
        match r {
            Ok(f) => n >= 0 && f@ == int_form(a * pow2(n as nat)),
            Err(e) => n < 0 && e == ArithError::NegativeShift,
        },
{
    if n < 0 {
        return Err(ArithError::NegativeShift);
    }
    let p = pow2_exec(n) as i128;
    let x = a as i128;
    assert(-0x4000_0000_0000_0000_0000_0000_0000_0000 <= x * p <= 0x4000_0000_0000_0000_0000_0000_0000_0000)
        by (nonlinear_arith)
        requires
            -0x8000_0000_0000_0000 <= x <= 0x8000_0000_0000_0000,
            0 <= p <= 0x8000_0000_0000_0000,
    ;
    Ok(int_form_exec(x * p))
}

/// `(bit-shift-right a n)`: `a` divided by `2^n`, rounded down; a negative
/// count is refused.
pub fn rt_shift_right(a: i64, n: i64) -> (r: Result<i64, ArithError>)
    ensures
        match r {
            Ok(v) => n >= 0 && v as int == (a as int) / (pow2(n as nat) as int),
            Err(e) => n < 0 && e == ArithError::NegativeShift,
        },
{
    if n < 0 {
        return Err(ArithError::NegativeShift);
    }
    if n >= 63 {
        proof {
            vstd::arithmetic::power2::lemma2_to64_rest();
            if n > 63 {
                vstd::arithmetic::power2::lemma_pow2_strictly_increases(63, n as nat);
            }
            let p = pow2(n as nat) as int;
            if a < 0 {
                vstd::arithmetic::div_mod::lemma_fundamental_div_mod_converse(a as int, p, -1, a + p);
            } else {
                vstd::arithmetic::div_mod::lemma_fundamental_div_mod_converse(a as int, p, 0, a as int);
            }
        }
        return Ok(if a < 0 {
            -1
        } else {
            0
        });
    }
    let p = pow2_exec(n);
    let m = magnitude(a);
    if a >= 0 {
        let q = m / p;
        proof {
            vstd::arithmetic::div_mod::lemma_fundamental_div_mod(m as int, p as int);
            assert((q as int) * (p as int) == (p as int) * (q as int)) by (nonlinear_arith);
            vstd::arithmetic::div_mod::lemma_fundamental_div_mod_converse(
                a as int,
                p as int,
                q as int,
                (m % p) as int,
            );
            assert(q <= m) by (nonlinear_arith)
                requires q == m / p, p > 0;
        }
        Ok(q as i64)
    } else {
        let c = (m + p - 1) / p;
        proof {
            let k = (m + p - 1) as int;
            vstd::arithmetic::div_mod::lemma_fundamental_div_mod(k, p as int);
            let t = k % (p as int);
            assert(k == (p as int) * (c as int) + t);
            assert((-(c as int)) * (p as int) == -((p as int) * (c as int))) by (nonlinear_arith);
            vstd::arithmetic::div_mod::lemma_fundamental_div_mod_converse(
                a as int,
                p as int,
                -(c as int),
                (p as int) - 1 - t,
            );
            assert(c <= m) by (nonlinear_arith)
                requires c as int == (m + p - 1) as int / (p as int), p > 0, m >= 1;
        }
        Ok((-(c as i128)) as i64)
    }
}

/// `(unsigned-bit-shift-right a n)`: `a` taken as an unsigned 64-bit number,
/// divided by `2^n`; a negative count is refused.
pub fn rt_unsigned_shift_right(a: i64, n: i64) -> (r: Result<Form, ArithError>)
    ensures
        match r {
            Ok(f) => n >= 0 && f@ == int_form((unsigned_of(a) / pow2(n as nat)) as int),
            Err(e) => n < 0 && e == ArithError::NegativeShift,
        },
{
    if n < 0 {
        return Err(ArithError::NegativeShift);
    }
    let u: u128 = if a < 0 {
        (a as i128 + 0x1_0000_0000_0000_0000) as u128
    } else {
        a as u128
    };
    if n >= 64 {
        proof {
            vstd::arithmetic::power2::lemma2_to64();
            if n > 64 {
                vstd::arithmetic::power2::lemma_pow2_strictly_increases(64, n as nat);
            }
            vstd::arithmetic::div_mod::lemma_fundamental_div_mod_converse(
                u as int,
                pow2(n as nat) as int,
                0,
                u as int,
            );
        }
        return Ok(Form::Int(0));
    }
    let p = pow2_exec(n);
    let q = u / p;
    assert(q <= u) by (nonlinear_arith)
        requires q == u / p, p > 0;
    Ok(int_form_exec(q as i128))
}

/// Bit `n` of `a` (`bit-test`); a negative index is refused.
pub fn rt_bit_test(a: i64, n: i64) -> (r: Result<bool, ArithError>)
    ensures
        match r {
            Ok(b) => n >= 0 && b == bit_of(a as int, n as nat),
            Err(e) => n < 0 && e == ArithError::NegativeShift,
        },
{
    match rt_shift_right(a, n) {
        Err(e) => Err(e),
        Ok(s) => {
            let m = s % 2;
            let bit = if m < 0 {
                m + 2
            } else {
                m
            };
            assert(bit == (s as int) % 2);
            Ok(bit == 1)
        },
    }
}

/// Which single-bit change to make.
#[derive(PartialEq, Eq, Structural, Clone, Copy, Debug)]
pub enum BitChange {
    SetBit,
    ClearBit,
    FlipBit,
}

/// `a` with bit `n` set, cleared or flipped.
pub open spec fn changed_bit(a: int, n: nat, op: BitChange) -> int {
    let on = bit_of(a, n);
    match op {
        BitChange::SetBit => if on {
            a
        } else {
            a + pow2(n)
        },
        BitChange::ClearBit => if on {
            a - pow2(n)
        } else {
            a
        },
        BitChange::FlipBit => if on {
            a - pow2(n)
        } else {
            a + pow2(n)
        },
    }
}

/// `(bit-set a n)`, `(bit-clear a n)`, `(bit-flip a n)` for bit indices
/// below 64; a negative index is refused.
pub fn rt_change_bit(a: i64, n: i64, op: BitChange) -> (r: Result<Form, ArithError>)
    requires
        n < 64,
    ensures
        match r {
            Ok(f) => n >= 0 && f@ == int_form(changed_bit(a as int, n as nat, op)),
            Err(e) => n < 0 && e == ArithError::NegativeShift,
        },
{
    let on = match rt_bit_test(a, n) {
        Err(e) => {
            return Err(e);
        },
        Ok(b) => b,
    };
    let p = pow2_exec(n) as i128;
    let x = a as i128;
    let v: i128 = match op {
        BitChange::SetBit => if on {
            x
        } else {
            x + p
        },
        BitChange::ClearBit => if on {
            x - p
        } else {
            x
        },
        BitChange::FlipBit => if on {
            x - p
        } else {
            x + p
        },
    };
    Ok(int_form_exec(v))
}


/// `quot` and `rem` split the dividend: `a == b * quot + rem`, the remainder
/// is smaller than the divisor in magnitude, and it is zero or has the
/// dividend's sign.
pub proof fn law_quot_rem(a: int, b: int)
    requires
        b != 0,
    ensures
        a == b * trunc_div(a, b) + trunc_rem(a, b),
        abs_int(trunc_rem(a, b)) < abs_int(b),
        trunc_rem(a, b) == 0 || (trunc_rem(a, b) < 0) == (a < 0),
{
    let ua = abs_int(a);
    let ub = abs_int(b);
    let m = ua / ub;
    vstd::arithmetic::div_mod::lemma_fundamental_div_mod(ua as int, ub as int);
    let t = ua % ub;
    assert(ua == ub * m + t);
    let q = trunc_div(a, b);
    let bq = b * q;
    if (a < 0) != (b < 0) {
        if a < 0 {
            assert(bq == -(ub * m)) by (nonlinear_arith)
                requires b == ub, q == -m, bq == b * q;
        } else {
            assert(bq == ub * m) by (nonlinear_arith)
                requires b == -ub, q == -m, bq == b * q;
        }
    } else {
        if a < 0 {
            assert(bq == -(ub * m)) by (nonlinear_arith)
                requires b == -ub, q == m, bq == b * q;
        } else {
            assert(bq == ub * m) by (nonlinear_arith)
                requires b == ub, q == m, bq == b * q;
        }
    }
}

} // verus!
