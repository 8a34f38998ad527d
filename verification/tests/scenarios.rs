use simdeval::evaluate::value::single::Single;
use simdeval::evaluate::value::Value;
use simdeval::float::FloatOp;
use simdeval::{Error, Expression, Std};

fn number(bits: u64) -> f64 {
    f64::from_bits(bits)
}

fn unit(op: FloatOp) -> u64 {
    match op {
        FloatOp::Add(a, b) => (number(a) + number(b)).to_bits(),
        FloatOp::Sub(a, b) => (number(a) - number(b)).to_bits(),
        FloatOp::Mul(a, b) => (number(a) * number(b)).to_bits(),
        FloatOp::Div(a, b) => (number(a) / number(b)).to_bits(),
        FloatOp::Rem(a, b) => (number(a) % number(b)).to_bits(),
        FloatOp::Powf(a, b) => number(a).powf(number(b)).to_bits(),
        FloatOp::Powi(a, n) => number(a).powi(n).to_bits(),
        FloatOp::FromInt(v) => (v as f64).to_bits(),
        FloatOp::ToInt(a) => (number(a) as i64) as u64,
        FloatOp::Sqrt(a) => number(a).sqrt().to_bits(),
        FloatOp::Log(a, b) => number(a).log(number(b)).to_bits(),
    }
}

fn parser(text: &[u8]) -> Option<u64> {
    let text = std::str::from_utf8(text).ok()?;
    text.parse::<f64>().ok().map(f64::to_bits)
}

fn value_of(source: &str) -> Result<Value<8>, Error> {
    let mut expression = Expression::<Std<8>, 8>::new(source.to_string());
    expression.compile(&parser)?;
    expression.eval(&unit)
}

fn integer(v: i64) -> Value<8> {
    Value::Single(Single::Int(v))
}

fn floating(v: f64) -> Value<8> {
    Value::Single(Single::Float(v.to_bits()))
}

#[test]
fn product_binds_tighter_than_sum() {
    assert_eq!(value_of("2+3*4"), Ok(integer(14)));
}

#[test]
fn brackets_bind_tighter_than_product() {
    assert_eq!(value_of("(2+3)*4"), Ok(integer(20)));
}

#[test]
fn equal_weights_group_to_the_left() {
    assert_eq!(value_of("2^3^2"), Ok(integer(64)));
}

#[test]
fn unary_minus_is_zero_minus() {
    assert_eq!(value_of("-5+3"), Ok(integer(-2)));
}

#[test]
fn square_root_of_the_standard_library() {
    assert_eq!(value_of("std:sqrt(4)"), Ok(floating(2.0)));
}

#[test]
fn wrong_number_of_arguments() {
    assert_eq!(value_of("std:sqrt(4,5)"), Err(Error::InvalidArgs));
}

#[test]
fn empty_source() {
    assert_eq!(value_of(""), Err(Error::EmptyExpression));
}

#[test]
fn unknown_byte() {
    assert_eq!(value_of("@"), Err(Error::UnknownCharacter('@')));
}

#[test]
fn eval_before_compile() {
    let expression = Expression::<Std<8>, 8>::new("1+1".to_string());
    assert_eq!(expression.eval(&unit), Err(Error::NotCompiled));
}

#[test]
fn compile_twice() {
    let mut expression = Expression::<Std<8>, 8>::new("a+1".to_string());
    assert_eq!(expression.compile(&parser), Ok(()));
    assert_eq!(expression.compile(&parser), Err(Error::AlreadyCompiled));
    assert_eq!(expression.eval(&unit), Ok(integer(1)));
}

#[test]
fn variable_by_name_and_by_slot() {
    let mut expression = Expression::<Std<8>, 8>::new("a+1".to_string());
    expression.compile(&parser).unwrap();
    expression.set_variable("a", integer(41)).unwrap();
    assert_eq!(expression.eval(&unit), Ok(integer(42)));
    let slot = expression.variable_index("a").unwrap();
    expression.set_variable_by_index(slot, integer(0)).unwrap();
    assert_eq!(expression.eval(&unit), Ok(integer(1)));
    expression.set_variable_by_index(slot, integer(41)).unwrap();
    assert_eq!(expression.eval(&unit), Ok(integer(42)));
    assert_eq!(expression.set_variable("b", integer(1)), Err(Error::InvalidVariable));
    assert_eq!(expression.set_variable_by_index(1, integer(1)), Err(Error::InvalidVariable));
}
