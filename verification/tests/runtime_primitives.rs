use clojure_core::primitives::{
    int_abs, int_add, int_dec, int_inc, int_multiply, int_negate, int_subtract, low_i32, rt_bit_test,
    rt_change_bit, rt_divide, rt_quot, rt_rem, rt_shift_left, rt_shift_right, rt_unsigned_shift_right,
    unchecked_add_int, unchecked_multiply_int, unchecked_subtract_int, ArithError, BitChange,
};
use clojure_core::protocol::{dispatch_choice, DispatchChoice};
use clojure_core::reader::form::Form;

fn small(f: Form) -> i64 {
    match f {
        Form::Int(n) => n,
        other => panic!("not an int: {:?}", other),
    }
}

fn big(f: Form) -> String {
    match f {
        Form::BigInt(t) => t,
        other => panic!("not a big integer: {:?}", other),
    }
}

fn ratio(f: Form) -> (String, String) {
    match f {
        Form::Ratio(n, d) => (n, d),
        other => panic!("not a ratio: {:?}", other),
    }
}

#[test]
fn quot_and_rem_truncate_toward_zero() {
    assert_eq!(small(rt_quot(7, 2).unwrap()), 3);
    assert_eq!(small(rt_quot(-7, 2).unwrap()), -3);
    assert_eq!(small(rt_quot(7, -2).unwrap()), -3);
    assert_eq!(small(rt_quot(-7, -2).unwrap()), 3);
    assert_eq!(rt_rem(7, 2), Ok(1));
    assert_eq!(rt_rem(-7, 2), Ok(-1));
    assert_eq!(rt_rem(7, -2), Ok(1));
    assert_eq!(rt_rem(-7, -2), Ok(-1));
    assert_eq!(rt_rem(i64::MIN, -1), Ok(0));
    assert_eq!(big(rt_quot(i64::MIN, -1).unwrap()), "9223372036854775808");
    assert!(matches!(rt_quot(1, 0), Err(ArithError::DivideByZero)));
    assert_eq!(rt_rem(1, 0), Err(ArithError::DivideByZero));
}

#[test]
fn divide_is_exact() {
    assert_eq!(small(rt_divide(6, 3).unwrap()), 2);
    assert_eq!(ratio(rt_divide(1, 2).unwrap()), ("1".to_string(), "2".to_string()));
    assert_eq!(ratio(rt_divide(4, -6).unwrap()), ("-2".to_string(), "3".to_string()));
    assert_eq!(small(rt_divide(-4, -2).unwrap()), 2);
    assert_eq!(small(rt_divide(0, -5).unwrap()), 0);
    assert_eq!(big(rt_divide(i64::MIN, -1).unwrap()), "9223372036854775808");
    assert!(matches!(rt_divide(3, 0), Err(ArithError::DivideByZero)));
}

#[test]
fn integer_arithmetic_grows_past_64_bits() {
    assert_eq!(small(int_add(2, 3)), 5);
    assert_eq!(big(int_add(i64::MAX, 1)), "9223372036854775808");
    assert_eq!(big(int_subtract(i64::MIN, 1)), "-9223372036854775809");
    assert_eq!(big(int_multiply(i64::MAX, i64::MAX)), "85070591730234615847396907784232501249");
    assert_eq!(small(int_multiply(-4, 5)), -20);
    assert_eq!(big(int_inc(i64::MAX)), "9223372036854775808");
    assert_eq!(small(int_dec(0)), -1);
    assert_eq!(big(int_negate(i64::MIN)), "9223372036854775808");
    assert_eq!(big(int_abs(i64::MIN)), "9223372036854775808");
    assert_eq!(small(int_abs(-7)), 7);
}

#[test]
fn thirty_two_bit_wrapping() {
    assert_eq!(unchecked_add_int(i32::MAX, 1), i32::MIN);
    assert_eq!(unchecked_subtract_int(i32::MIN, 1), i32::MAX);
    assert_eq!(unchecked_multiply_int(65536, 65536), 0);
    assert_eq!(low_i32(0x1_0000_0005), 5);
    assert_eq!(low_i32(0xFFFF_FFFF), -1);
    assert_eq!(low_i32(-1), -1);
}

#[test]
fn shifts_and_bits() {
    assert_eq!(small(rt_shift_left(3, 4).unwrap()), 48);
    assert_eq!(big(rt_shift_left(1, 63).unwrap()), "9223372036854775808");
    assert!(matches!(rt_shift_left(1, -1), Err(ArithError::NegativeShift)));
    assert_eq!(rt_shift_right(-7, 1), Ok(-4));
    assert_eq!(rt_shift_right(7, 1), Ok(3));
    assert_eq!(rt_shift_right(-7, 100), Ok(-1));
    assert_eq!(rt_shift_right(7, 100), Ok(0));
    assert_eq!(big(rt_unsigned_shift_right(-1, 0).unwrap()), "18446744073709551615");
    assert_eq!(small(rt_unsigned_shift_right(-1, 60).unwrap()), 15);
    assert_eq!(small(rt_unsigned_shift_right(-1, 70).unwrap()), 0);
    assert_eq!(rt_bit_test(5, 2), Ok(true));
    assert_eq!(rt_bit_test(5, 1), Ok(false));
    assert_eq!(rt_bit_test(-1, 200), Ok(true));
    assert_eq!(small(rt_change_bit(5, 1, BitChange::SetBit).unwrap()), 7);
    assert_eq!(small(rt_change_bit(5, 0, BitChange::ClearBit).unwrap()), 4);
    assert_eq!(small(rt_change_bit(5, 2, BitChange::FlipBit).unwrap()), 1);
    assert_eq!(small(rt_change_bit(-1, 0, BitChange::ClearBit).unwrap()), -2);
    assert_eq!(big(rt_change_bit(i64::MAX, 63, BitChange::SetBit).unwrap()), "18446744073709551615");
}

#[test]
fn protocol_dispatch_decisions() {
    let mut fixed = vec![false; 21];
    fixed[2] = true;
    fixed[20] = true;
    assert_eq!(dispatch_choice(Some((&fixed, true)), false, 2), DispatchChoice::Fixed(2));
    assert_eq!(dispatch_choice(Some((&fixed, false)), true, 20), DispatchChoice::Fixed(20));
    assert_eq!(dispatch_choice(Some((&fixed, true)), false, 1), DispatchChoice::Variadic);
    assert_eq!(dispatch_choice(Some((&fixed, true)), false, 25), DispatchChoice::Variadic);
    assert_eq!(dispatch_choice(Some((&fixed, false)), true, 3), DispatchChoice::NoArity);
    assert_eq!(dispatch_choice(None, true, 0), DispatchChoice::Legacy);
    assert_eq!(dispatch_choice(None, false, 0), DispatchChoice::NoImpl);
}
