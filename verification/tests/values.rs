use simdeval::evaluate::enums::{Bracket, Operator};
use simdeval::evaluate::promotion::{parse_bool, parse_int};
use simdeval::evaluate::value::simd::Simd;
use simdeval::evaluate::value::single::{checked_power, Single};
use simdeval::evaluate::value::Value;
use simdeval::float::{abs, equal, less, nan, zero, FloatOp};
use simdeval::Error;

fn as_number(bits: u64) -> f64 {
    f64::from_bits(bits)
}

fn arithmetic(op: FloatOp) -> u64 {
    match op {
        FloatOp::Add(a, b) => (as_number(a) + as_number(b)).to_bits(),
        FloatOp::Sub(a, b) => (as_number(a) - as_number(b)).to_bits(),
        FloatOp::Mul(a, b) => (as_number(a) * as_number(b)).to_bits(),
        FloatOp::Div(a, b) => (as_number(a) / as_number(b)).to_bits(),
        FloatOp::Rem(a, b) => (as_number(a) % as_number(b)).to_bits(),
        FloatOp::Powf(a, b) => as_number(a).powf(as_number(b)).to_bits(),
        FloatOp::Powi(a, n) => as_number(a).powi(n).to_bits(),
        FloatOp::FromInt(v) => (v as f64).to_bits(),
        FloatOp::ToInt(a) => (as_number(a) as i64) as u64,
        FloatOp::Sqrt(a) => as_number(a).sqrt().to_bits(),
        FloatOp::Log(a, b) => as_number(a).log(as_number(b)).to_bits(),
    }
}

fn fl(v: f64) -> Single {
    Single::Float(v.to_bits())
}

fn samples() -> Vec<f64> {
    vec![
        0.0,
        -0.0,
        1.0,
        -1.0,
        2.5,
        -2.5,
        1e300,
        -1e300,
        5e-324,
        -5e-324,
        f64::INFINITY,
        f64::NEG_INFINITY,
        f64::NAN,
        -f64::NAN,
        f64::MAX,
        f64::MIN,
        f64::MIN_POSITIVE,
    ]
}

#[test]
fn sum_of_booleans_is_an_integer() {
    assert_eq!(
        Single::Bool(true).add(Single::Bool(true), &arithmetic),
        Single::Int(2)
    );
    assert_eq!(
        Single::Bool(false).add(Single::Bool(true), &arithmetic),
        Single::Int(1)
    );
}

#[test]
fn sum_of_integer_and_float_is_a_float() {
    assert_eq!(Single::Int(1).add(fl(1.5), &arithmetic), fl(2.5));
    assert_eq!(fl(1.5).add(Single::Int(1), &arithmetic), fl(2.5));
    assert_eq!(fl(1.5).add(Single::Bool(true), &arithmetic), fl(2.5));
    assert_eq!(Single::Bool(true).add(fl(1.5), &arithmetic), fl(2.5));
    assert_eq!(fl(1.5).add(fl(1.5), &arithmetic), fl(3.0));
}

#[test]
fn integer_arithmetic() {
    assert_eq!(Single::Int(2).add(Single::Int(3), &arithmetic), Single::Int(5));
    assert_eq!(Single::Int(2).sub(Single::Int(3), &arithmetic), Single::Int(-1));
    assert_eq!(Single::Int(2).mul(Single::Int(3), &arithmetic), Single::Int(6));
    assert_eq!(Single::Int(7).div(Single::Int(2), &arithmetic), Ok(Single::Int(3)));
    assert_eq!(Single::Int(-7).div(Single::Int(2), &arithmetic), Ok(Single::Int(-3)));
    assert_eq!(Single::Int(7).rem(Single::Int(2), &arithmetic), Ok(Single::Int(1)));
    assert_eq!(Single::Int(-7).rem(Single::Int(2), &arithmetic), Ok(Single::Int(-1)));
    assert_eq!(Single::Int(7).rem(Single::Int(-2), &arithmetic), Ok(Single::Int(1)));
    assert_eq!(Single::Int(5).add(Single::Bool(true), &arithmetic), Single::Int(6));
    assert_eq!(Single::Bool(true).sub(Single::Int(5), &arithmetic), Single::Int(-4));
    assert_eq!(Single::Bool(true).mul(Single::Bool(true), &arithmetic), Single::Int(1));
}

#[test]
fn integer_arithmetic_wraps_round() {
    assert_eq!(
        Single::Int(i64::MAX).add(Single::Int(1), &arithmetic),
        Single::Int(i64::MIN)
    );
    assert_eq!(
        Single::Int(i64::MIN).sub(Single::Int(1), &arithmetic),
        Single::Int(i64::MAX)
    );
    assert_eq!(
        Single::Int(i64::MAX).mul(Single::Int(2), &arithmetic),
        Single::Int(-2)
    );
}

#[test]
fn integer_division_without_a_result() {
    assert_eq!(
        Single::Int(1).div(Single::Int(0), &arithmetic),
        Err(Error::ArithmeticOverflow)
    );
    assert_eq!(
        Single::Int(1).rem(Single::Int(0), &arithmetic),
        Err(Error::ArithmeticOverflow)
    );
    assert_eq!(
        Single::Int(i64::MIN).div(Single::Int(-1), &arithmetic),
        Err(Error::ArithmeticOverflow)
    );
    assert_eq!(
        Single::Int(i64::MIN).rem(Single::Int(-1), &arithmetic),
        Err(Error::ArithmeticOverflow)
    );
    assert_eq!(
        Single::Bool(true).div(Single::Bool(false), &arithmetic),
        Err(Error::ArithmeticOverflow)
    );
}

#[test]
fn float_division() {
    assert_eq!(Single::Int(1).div(fl(4.0), &arithmetic), Ok(fl(0.25)));
    assert_eq!(fl(1.0).div(Single::Int(0), &arithmetic), Ok(fl(f64::INFINITY)));
    assert_eq!(fl(7.5).rem(fl(2.0), &arithmetic), Ok(fl(1.5)));
}

#[test]
fn powers_of_integers() {
    assert_eq!(checked_power(2, 10), Some(1024));
    assert_eq!(checked_power(2, 62), Some(1 << 62));
    assert_eq!(checked_power(2, 63), None);
    assert_eq!(checked_power(-2, 63), Some(i64::MIN));
    assert_eq!(checked_power(-2, 64), None);
    assert_eq!(checked_power(0, 0), Some(1));
    assert_eq!(checked_power(0, 5), Some(0));
    assert_eq!(checked_power(1, u64::MAX), Some(1));
    assert_eq!(checked_power(-1, u64::MAX), Some(-1));
    assert_eq!(checked_power(-1, u64::MAX - 1), Some(1));
    assert_eq!(checked_power(3, 39), Some(4052555153018976267));
    assert_eq!(checked_power(3, 40), None);
    assert_eq!(checked_power(i64::MAX, 1), Some(i64::MAX));
    assert_eq!(checked_power(i64::MIN, 2), None);
}

#[test]
fn power_by_kind() {
    assert_eq!(Single::Int(2).pow(Single::Int(3), &arithmetic), Ok(Single::Int(8)));
    assert_eq!(Single::Int(2).pow(Single::Int(0), &arithmetic), Ok(Single::Int(1)));
    assert_eq!(
        Single::Int(2).pow(Single::Int(64), &arithmetic),
        Err(Error::ArithmeticOverflow)
    );
    assert_eq!(Single::Int(2).pow(Single::Int(-1), &arithmetic), Ok(fl(0.5)));
    assert_eq!(
        Single::Int(2).pow(Single::Int(i64::MIN), &arithmetic),
        Err(Error::ArithmeticOverflow)
    );
    assert_eq!(Single::Int(4).pow(fl(0.5), &arithmetic), Ok(fl(2.0)));
    assert_eq!(Single::Int(7).pow(Single::Bool(true), &arithmetic), Ok(Single::Int(7)));
    assert_eq!(Single::Int(7).pow(Single::Bool(false), &arithmetic), Ok(Single::Int(1)));
    assert_eq!(fl(1.5).pow(Single::Int(2), &arithmetic), Ok(fl(2.25)));
    assert_eq!(
        fl(1.5).pow(Single::Int(i64::MAX), &arithmetic),
        Err(Error::ArithmeticOverflow)
    );
    assert_eq!(fl(9.0).pow(fl(0.5), &arithmetic), Ok(fl(3.0)));
    assert_eq!(fl(9.0).pow(Single::Bool(true), &arithmetic), Ok(fl(9.0)));
    assert_eq!(fl(9.0).pow(Single::Bool(false), &arithmetic), Ok(fl(1.0)));
}

#[test]
fn power_of_a_boolean_is_the_boolean() {
    assert_eq!(
        Single::Bool(true).pow(Single::Int(5), &arithmetic),
        Ok(Single::Bool(true))
    );
    assert_eq!(
        Single::Bool(false).pow(fl(2.0), &arithmetic),
        Ok(Single::Bool(false))
    );
    assert_eq!(
        Single::Bool(true).pow(Single::Bool(false), &arithmetic),
        Ok(Single::Bool(true))
    );
}

#[test]
fn truth_of_values() {
    assert!(Single::Int(3).as_bool());
    assert!(!Single::Int(0).as_bool());
    assert!(fl(0.5).as_bool());
    assert!(!fl(0.0).as_bool());
    assert!(!fl(-0.0).as_bool());
    assert!(fl(f64::NAN).as_bool());
    assert!(Single::Bool(true).as_bool());
    assert_eq!(Single::Int(3).and(fl(0.0)), Single::Bool(false));
    assert_eq!(Single::Int(3).and(fl(1.0)), Single::Bool(true));
    assert_eq!(Single::Int(0).or(Single::Bool(true)), Single::Bool(true));
    assert_eq!(Single::Int(0).or(Single::Bool(false)), Single::Bool(false));
    assert_eq!(Single::Int(1).xor(Single::Bool(true)), Single::Bool(false));
    assert_eq!(Single::Int(1).xor(Single::Bool(false)), Single::Bool(true));
}

#[test]
fn conversions() {
    assert_eq!(Single::Int(3).as_float(&arithmetic), 3.0f64.to_bits());
    assert_eq!(Single::Bool(true).as_float(&arithmetic), 1.0f64.to_bits());
    assert_eq!(fl(2.5).as_float(&arithmetic), 2.5f64.to_bits());
    assert_eq!(fl(2.9).as_int(&arithmetic), 2);
    assert_eq!(fl(-2.9).as_int(&arithmetic), -2);
    assert_eq!(fl(f64::NAN).as_int(&arithmetic), 0);
    assert_eq!(fl(1e300).as_int(&arithmetic), i64::MAX);
    assert_eq!(Single::Bool(true).as_int(&arithmetic), 1);
    assert_eq!(Single::Int(-4).as_int(&arithmetic), -4);
    let mut v = Single::Int(3);
    v.to_float(&arithmetic);
    assert_eq!(v, fl(3.0));
    v.to_int(&arithmetic);
    assert_eq!(v, Single::Int(3));
    v.to_bool();
    assert_eq!(v, Single::Bool(true));
}

#[test]
fn an_integer_is_no_float() {
    assert!(!Single::Int(5).is_same(&fl(5.0)));
    assert!(Single::Int(5).is_same(&Single::Int(5)));
    assert!(Single::Int(5).is_under(&fl(1.0)));
    assert!(fl(1e9).is_under(&Single::Bool(false)));
    assert!(Single::Int(9).is_under(&Single::Bool(false)));
    assert!(!Single::Bool(false).is_under(&Single::Int(9)));
    assert!(Single::Bool(false).is_under(&Single::Bool(true)));
    assert!(!Single::Bool(true).is_under(&Single::Bool(true)));
    assert!(Single::Int(-3).is_under(&Single::Int(2)));
}

#[test]
fn order_of_bit_patterns_is_the_order_of_numbers() {
    for a in samples() {
        assert_eq!(nan(a.to_bits()), a.is_nan());
        assert_eq!(zero(a.to_bits()), a == 0.0);
        assert_eq!(abs(a.to_bits()), a.abs().to_bits());
        for b in samples() {
            assert_eq!(equal(a.to_bits(), b.to_bits()), a == b, "{} == {}", a, b);
            assert_eq!(less(a.to_bits(), b.to_bits()), a < b, "{} < {}", a, b);
        }
    }
}

#[test]
fn operators_on_values() {
    let two: Value<4> = Value::Single(Single::Int(2));
    let three: Value<4> = Value::Single(Single::Int(3));
    let yes: Value<4> = Value::Single(Single::Bool(true));
    let no: Value<4> = Value::Single(Single::Bool(false));
    assert_eq!(Operator::Add.eval(two, three, &arithmetic), Ok(Value::Single(Single::Int(5))));
    assert_eq!(Operator::Sub.eval(two, three, &arithmetic), Ok(Value::Single(Single::Int(-1))));
    assert_eq!(Operator::Mul.eval(two, three, &arithmetic), Ok(Value::Single(Single::Int(6))));
    assert_eq!(Operator::Div.eval(three, two, &arithmetic), Ok(Value::Single(Single::Int(1))));
    assert_eq!(Operator::Mod.eval(three, two, &arithmetic), Ok(Value::Single(Single::Int(1))));
    assert_eq!(Operator::Pow.eval(two, three, &arithmetic), Ok(Value::Single(Single::Int(8))));
    assert_eq!(Operator::Equal.eval(two, three, &arithmetic), Ok(no));
    assert_eq!(Operator::Equal.eval(two, two, &arithmetic), Ok(yes));
    assert_eq!(Operator::NotEqual.eval(two, three, &arithmetic), Ok(yes));
    assert_eq!(Operator::Greater.eval(three, two, &arithmetic), Ok(yes));
    assert_eq!(Operator::Greater.eval(two, two, &arithmetic), Ok(no));
    assert_eq!(Operator::GreaterEqual.eval(two, two, &arithmetic), Ok(yes));
    assert_eq!(Operator::Smaller.eval(two, three, &arithmetic), Ok(yes));
    assert_eq!(Operator::SmallerEqual.eval(three, two, &arithmetic), Ok(no));
    assert_eq!(Operator::SmallerEqual.eval(three, three, &arithmetic), Ok(yes));
    assert_eq!(Operator::And.eval(two, no, &arithmetic), Ok(no));
    assert_eq!(Operator::Or.eval(two, no, &arithmetic), Ok(yes));
    assert_eq!(Operator::Xor.eval(two, yes, &arithmetic), Ok(no));
    assert_eq!(Operator::Not.eval(two, yes, &arithmetic), Err(Error::UnexpectedToken));
    assert_eq!(
        Operator::Div.eval(two, Value::Single(Single::Int(0)), &arithmetic),
        Err(Error::ArithmeticOverflow)
    );
}

#[test]
fn comparison_with_nan() {
    let nan: Value<2> = Value::Single(fl(f64::NAN));
    let one: Value<2> = Value::Single(fl(1.0));
    let yes: Value<2> = Value::Single(Single::Bool(true));
    let no: Value<2> = Value::Single(Single::Bool(false));
    assert_eq!(Operator::Equal.eval(nan, nan, &arithmetic), Ok(no));
    assert_eq!(Operator::NotEqual.eval(nan, nan, &arithmetic), Ok(yes));
    assert_eq!(Operator::Smaller.eval(nan, one, &arithmetic), Ok(no));
    assert_eq!(Operator::GreaterEqual.eval(nan, one, &arithmetic), Ok(no));
    assert_eq!(Operator::SmallerEqual.eval(one, nan, &arithmetic), Ok(no));
}

#[test]
fn weights() {
    assert_eq!(Bracket::Opened.weight(), 100);
    assert_eq!(Bracket::Closed.weight(), -100);
    assert_eq!(Operator::Add.weight(), 20);
    assert_eq!(Operator::Sub.weight(), 20);
    assert_eq!(Operator::Mul.weight(), 21);
    assert_eq!(Operator::Div.weight(), 21);
    assert_eq!(Operator::Mod.weight(), 22);
    assert_eq!(Operator::Pow.weight(), 22);
    assert_eq!(Operator::Not.weight(), 1);
    assert_eq!(Operator::Equal.weight(), 2);
    assert_eq!(Operator::And.weight(), 3);
    assert_eq!(Operator::Or.weight(), 4);
    assert_eq!(Operator::Xor.weight(), 5);
    assert_eq!(Operator::NotEqual.weight(), 7);
    assert_eq!(Operator::Greater.weight(), 8);
    assert_eq!(Operator::GreaterEqual.weight(), 9);
    assert_eq!(Operator::Smaller.weight(), 10);
    assert_eq!(Operator::SmallerEqual.weight(), 11);
}

#[test]
fn vectors_work_lane_by_lane() {
    let a: Simd<4> = Simd::Float([1.0f64, 2.0, 3.0, 4.0].map(f64::to_bits));
    let b: Simd<4> = Simd::Float([0.5f64, 0.5, 2.0, -1.0].map(f64::to_bits));
    assert_eq!(
        a.add(b, &arithmetic),
        Simd::Float([1.5f64, 2.5, 5.0, 3.0].map(f64::to_bits))
    );
    assert_eq!(
        a.sub(b, &arithmetic),
        Simd::Float([0.5f64, 1.5, 1.0, 5.0].map(f64::to_bits))
    );
    assert_eq!(
        a.mul(b, &arithmetic),
        Simd::Float([0.5f64, 1.0, 6.0, -4.0].map(f64::to_bits))
    );
    assert_eq!(
        a.div(b, &arithmetic),
        Simd::Float([2.0f64, 4.0, 1.5, -4.0].map(f64::to_bits))
    );
    assert_eq!(
        a.rem(b, &arithmetic),
        Simd::Float([0.0f64, 0.0, 1.0, 0.0].map(f64::to_bits))
    );
    assert_eq!(
        a.pow(b, &arithmetic),
        Simd::Float([1.0f64, 2.0f64.sqrt(), 9.0, 0.25].map(f64::to_bits))
    );
    assert_eq!(a.as_float(), [1.0f64, 2.0, 3.0, 4.0].map(f64::to_bits));
}

#[test]
fn a_single_value_is_spread_over_the_lanes() {
    let a: Value<4> = Value::Simd(Simd::Float([1.0f64, 2.0, 3.0, 4.0].map(f64::to_bits)));
    let two: Value<4> = Value::Single(Single::Int(2));
    assert_eq!(
        a.mul(two, &arithmetic),
        Value::Simd(Simd::Float([2.0f64, 4.0, 6.0, 8.0].map(f64::to_bits)))
    );
    assert_eq!(
        two.sub(a, &arithmetic),
        Value::Simd(Simd::Float([1.0f64, 0.0, -1.0, -2.0].map(f64::to_bits)))
    );
    assert_eq!(
        two.pow(a, &arithmetic),
        Ok(Value::Simd(Simd::Float([2.0f64, 4.0, 8.0, 16.0].map(f64::to_bits))))
    );
    assert_eq!(
        a.div(Value::Single(Single::Int(0)), &arithmetic),
        Ok(Value::Simd(Simd::Float([f64::INFINITY; 4].map(f64::to_bits))))
    );
    let mut v: Value<4> = Value::Single(Single::Bool(true));
    v.to_simd(&arithmetic);
    assert_eq!(v, Value::Simd(Simd::Float([1.0f64; 4].map(f64::to_bits))));
    v.to_simd(&arithmetic);
    assert_eq!(v, Value::Simd(Simd::Float([1.0f64; 4].map(f64::to_bits))));
    assert_eq!(Simd::<3>::splat(7), Simd::Float([7, 7, 7]));
}

#[test]
fn vectors_are_ordered_like_words() {
    let a: Simd<3> = Simd::Float([1.0f64, 2.0, 3.0].map(f64::to_bits));
    let b: Simd<3> = Simd::Float([1.0f64, 2.5, 0.0].map(f64::to_bits));
    let c: Simd<3> = Simd::Float([1.0f64, f64::NAN, 0.0].map(f64::to_bits));
    let zeros: Simd<3> = Simd::Float([0.0f64, -0.0, 0.0].map(f64::to_bits));
    assert!(a.is_under(&b));
    assert!(!b.is_under(&a));
    assert!(!a.is_under(&a));
    assert!(a.is_same(&a));
    assert!(!a.is_same(&b));
    assert!(!a.is_under(&c));
    assert!(!c.is_under(&a));
    assert!(!c.is_same(&c));
    assert!(a.as_bool());
    assert!(!zeros.as_bool());
    let single: Value<3> = Value::Single(Single::Int(0));
    assert!(Value::Simd(a).is_under(&single));
    assert!(!single.is_under(&Value::Simd(a)));
    assert!(!single.is_same(&Value::Simd(a)));
    assert!(Value::Simd(a).as_bool());
}

#[test]
fn integer_literals() {
    assert_eq!(parse_int(b"123"), Some(123));
    assert_eq!(parse_int(b"0"), Some(0));
    assert_eq!(parse_int(b"007"), Some(7));
    assert_eq!(parse_int(b""), None);
    assert_eq!(parse_int(b"12a"), None);
    assert_eq!(parse_int(b"1 "), None);
    assert_eq!(parse_int(b"-1"), None);
    assert_eq!(parse_int(b"9223372036854775807"), Some(i64::MAX));
    assert_eq!(parse_int(b"9223372036854775808"), None);
    assert_eq!(parse_int(b"99999999999999999999999"), None);
}

#[test]
fn boolean_literals() {
    assert_eq!(parse_bool(b"true"), Some(true));
    assert_eq!(parse_bool(b"false"), Some(false));
    assert_eq!(parse_bool(b"True"), None);
    assert_eq!(parse_bool(b""), None);
}
