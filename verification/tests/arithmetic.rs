use ssa_graph::types::{ArithOp, Type};

#[test]
fn bit_widths() {
    assert_eq!(Type::I8.bit_width(), 8);
    assert_eq!(Type::I16.bit_width(), 16);
    assert_eq!(Type::I32.bit_width(), 32);
    assert_eq!(Type::I64.bit_width(), 64);
}

#[test]
fn wrap_keeps_values_in_range() {
    assert_eq!(Type::I8.wrap_value(0), 0);
    assert_eq!(Type::I8.wrap_value(127), 127);
    assert_eq!(Type::I8.wrap_value(-128), -128);
    assert_eq!(Type::I32.wrap_value(-1), -1);
    assert_eq!(Type::I64.wrap_value(i64::MAX as i128), i64::MAX);
    assert_eq!(Type::I64.wrap_value(i64::MIN as i128), i64::MIN);
}

#[test]
fn wrap_reduces_modulo_two_to_the_width() {
    assert_eq!(Type::I8.wrap_value(200), -56);
    assert_eq!(Type::I8.wrap_value(128), -128);
    assert_eq!(Type::I8.wrap_value(-129), 127);
    assert_eq!(Type::I8.wrap_value(256), 0);
    assert_eq!(Type::I16.wrap_value(0x1_2345), 0x2345);
    assert_eq!(Type::I16.wrap_value(0x8000), -0x8000);
    assert_eq!(Type::I32.wrap_value(0x8000_0000), -0x8000_0000);
    assert_eq!(Type::I32.wrap_value(0x1_0000_0005), 5);
    assert_eq!(Type::I64.wrap_value(i64::MAX as i128 + 1), i64::MIN);
    assert_eq!(Type::I64.wrap_value(i64::MIN as i128 - 1), i64::MAX);
}

#[test]
fn wrap_takes_every_dividend() {
    assert_eq!(Type::I8.wrap_value(i128::MIN), 0);
    assert_eq!(Type::I8.wrap_value(i128::MAX), -1);
    assert_eq!(Type::I64.wrap_value(i128::MIN), 0);
    assert_eq!(Type::I64.wrap_value(i128::MAX), -1);
    assert_eq!(Type::I32.wrap_value(i128::MIN + 7), 7);
}

#[test]
fn arithmetic_is_exact_where_it_fits() {
    assert_eq!(ArithOp::Add.apply(Type::I32, 2, 3), 5);
    assert_eq!(ArithOp::Sub.apply(Type::I32, 10, 1), 9);
    assert_eq!(ArithOp::Sub.apply(Type::I32, 1, 10), -9);
    assert_eq!(ArithOp::Mul.apply(Type::I32, -6, 7), -42);
}

#[test]
fn arithmetic_wraps() {
    assert_eq!(ArithOp::Add.apply(Type::I8, 127, 1), -128);
    assert_eq!(ArithOp::Sub.apply(Type::I8, -128, 1), 127);
    assert_eq!(ArithOp::Mul.apply(Type::I8, 16, 16), 0);
    assert_eq!(ArithOp::Add.apply(Type::I32, i32::MAX as i64, 1), i32::MIN as i64);
    assert_eq!(ArithOp::Sub.apply(Type::I32, i32::MIN as i64, 1), i32::MAX as i64);
    assert_eq!(ArithOp::Add.apply(Type::I64, i64::MAX, 1), i64::MIN);
    assert_eq!(ArithOp::Sub.apply(Type::I64, i64::MIN, 1), i64::MAX);
    assert_eq!(ArithOp::Mul.apply(Type::I64, i64::MAX, 2), -2);
    assert_eq!(ArithOp::Mul.apply(Type::I64, i64::MIN, i64::MIN), 0);
    assert_eq!(ArithOp::Mul.apply(Type::I64, i64::MIN, -1), i64::MIN);
}

#[test]
fn arithmetic_agrees_with_the_machine() {
    let samples: [i64; 9] = [0, 1, -1, 2, 1000, -77, i32::MAX as i64, i32::MIN as i64, 123456789];
    for a in samples {
        for b in samples {
            let (x, y) = (a as i32, b as i32);
            assert_eq!(ArithOp::Add.apply(Type::I32, a, b), x.wrapping_add(y) as i64);
            assert_eq!(ArithOp::Sub.apply(Type::I32, a, b), x.wrapping_sub(y) as i64);
            assert_eq!(ArithOp::Mul.apply(Type::I32, a, b), x.wrapping_mul(y) as i64);
            assert_eq!(ArithOp::Mul.apply(Type::I64, a, b), a.wrapping_mul(b));
        }
    }
}
