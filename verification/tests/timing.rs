use simdeval::evaluate::node::Node;
use simdeval::evaluate::parse_element::ParseElement;
use simdeval::evaluate::token::Token;
use simdeval::evaluate::value::simd::Simd;
use simdeval::evaluate::value::single::Single;
use simdeval::evaluate::value::Value;
use simdeval::float::FloatOp;
use simdeval::stack::Stack;
use simdeval::{Expression, Std};
use std::mem::size_of;
use std::time::Instant;

fn as_float(bits: u64) -> f64 {
    f64::from_bits(bits)
}

fn host_unit(op: FloatOp) -> u64 {
    match op {
        FloatOp::Add(a, b) => (as_float(a) + as_float(b)).to_bits(),
        FloatOp::Sub(a, b) => (as_float(a) - as_float(b)).to_bits(),
        FloatOp::Mul(a, b) => (as_float(a) * as_float(b)).to_bits(),
        FloatOp::Div(a, b) => (as_float(a) / as_float(b)).to_bits(),
        FloatOp::Rem(a, b) => (as_float(a) % as_float(b)).to_bits(),
        FloatOp::Powf(a, b) => as_float(a).powf(as_float(b)).to_bits(),
        FloatOp::Powi(a, n) => as_float(a).powi(n).to_bits(),
        FloatOp::FromInt(v) => (v as f64).to_bits(),
        FloatOp::ToInt(a) => (as_float(a) as i64) as u64,
        FloatOp::Sqrt(a) => as_float(a).sqrt().to_bits(),
        FloatOp::Log(a, b) => as_float(a).log(as_float(b)).to_bits(),
    }
}

fn host_parser(text: &[u8]) -> Option<u64> {
    let text = std::str::from_utf8(text).ok()?;
    text.parse::<f64>().ok().map(f64::to_bits)
}

#[test]
fn test_parse_fast() {
    let expression = "print(2+6^2*4)";
    let mut expression = Expression::<Std<8>, 8>::new(expression.to_string());
    expression.compile(&host_parser).unwrap();
    expression.optimize(&host_unit).unwrap();

    println!("compiled: {:#?}", expression);
    expression.eval(&host_unit).unwrap();
}

#[test]
fn test_fast_sizes() {
    println!("element:   {}", size_of::<ParseElement<Std<8>, 8>>());
    println!("node:      {}", size_of::<Node<Std<8>, 8>>());
    println!("token:     {}", size_of::<Token>());
}

#[test]
fn test_macro() {
    let mut expression = Expression::<Std<8>, 8>::new("std:sqrt(3+1+5+a)".to_string());
    expression.compile(&host_parser).unwrap();
    expression
        .set_variable("a", Value::Single(Single::Int(666)))
        .unwrap();
}

#[test]
fn test_eval() {
    let mut expression = Expression::<Std<8>, 8>::new("sqrt(a)".to_string());
    expression.compile(&host_parser).unwrap();
    expression.optimize(&host_unit).unwrap();
    println!("expression: {:#?}", expression);

    expression
        .set_variable_by_index(0, Value::Single(Single::Float(4.0f64.to_bits())))
        .unwrap();
    let result = expression.eval(&host_unit).unwrap();
    println!("result {:#?}", result);
    assert_eq!(result, Value::Single(Single::Float(2.0f64.to_bits())));

    let start = Instant::now();
    for i in 0..=1000000 {
        expression
            .set_variable_by_index(0, Value::Single(Single::Float((i as f64).to_bits())))
            .unwrap();
        let _result = expression.eval(&host_unit);
    }
    let end = start.elapsed();

    println!("{}ms", end.as_millis());
}

#[test]
fn test_handle_thing() {
    let mut test = Expression::<Std<8>, 8>::new("a+b+2".to_string());
    let _ = test.compile(&host_parser);
    let elements = test.elements();
    assert_eq!(elements.len(), 5);
}

#[test]
fn test_full_speed() {
    let start = Instant::now();
    for _i in 0..=1000000 {
        let mut test = Expression::<Std<8>, 8>::new("a+b+2".to_string());
        test.set_expression("3+1+5+3".to_string());
        test.compile(&host_parser).unwrap();
        test.optimize(&host_unit).unwrap();
        test.eval(&host_unit).unwrap();
    }
    let end = start.elapsed();
    println!("{}ms", end.as_millis());
}

#[test]
fn test_eval_simd_stack() {
    let expression = "1.0+a+43.0*3.0-b^3.0";
    let mut expression = Expression::<Std<8>, 8>::new(expression.to_string());
    expression.compile(&host_parser).unwrap();
    expression.optimize(&host_unit).unwrap();
    expression
        .set_variable_by_index(1, Value::Single(Single::Float(2.2f64.to_bits())))
        .unwrap();
    expression.to_simd(&host_unit);
    let mut stack = Stack::<u64, 8_usize>::new();
    println!("{:#?}", expression);
    let start = Instant::now();
    for i in 0..=1000000 {
        stack.push((i as f64).to_bits()).unwrap();
        if let Some(array) = stack.full_array() {
            expression
                .set_variable_by_index(0, Value::Simd(Simd::Float(array)))
                .unwrap();
            stack.clear();
            expression.eval(&host_unit).unwrap();
        }
    }
    let end = start.elapsed();
    println!("{}ms", end.as_millis())
}

#[test]
fn test_eval_simd() {
    let expression = "1.0+a+43.0*3.0-b^3.0";
    let mut expression = Expression::<Std<8>, 8>::new(expression.to_string());
    expression.compile(&host_parser).unwrap();
    expression.optimize(&host_unit).unwrap();
    expression
        .set_variable_by_index(1, Value::Single(Single::Float(2.2f64.to_bits())))
        .unwrap();
    expression.to_simd(&host_unit);
    println!("{:#?}", expression);
    let start = Instant::now();
    for i in 0..=1000000 / 8 {
        let e = (i * 8) as f64;
        let array = [
            e,
            e + 1.0,
            e + 2.0,
            e + 3.0,
            e + 4.0,
            e + 5.0,
            e + 6.0,
            e + 7.0,
        ];
        expression
            .set_variable_by_index(0, Value::Simd(Simd::Float(array.map(f64::to_bits))))
            .unwrap();
        expression.eval(&host_unit).unwrap();
    }
    let end = start.elapsed();
    println!("{}ms", end.as_millis())
}

#[test]
fn test_eval_normal() {
    let expression = "1.0+a+43.0*3.0-b^3.0";
    let mut expression = Expression::<Std<8>, 8>::new(expression.to_string());
    expression.compile(&host_parser).unwrap();
    expression.optimize(&host_unit).unwrap();
    expression
        .set_variable_by_index(1, Value::Single(Single::Float(2.2f64.to_bits())))
        .unwrap();
    println!("{:#?}", expression);
    let start = Instant::now();
    for i in 0..=1000000 {
        expression
            .set_variable_by_index(0, Value::Single(Single::Int(i)))
            .unwrap();
        expression.eval(&host_unit).unwrap();
    }
    let end = start.elapsed();
    println!("{}ms", end.as_millis())
}
