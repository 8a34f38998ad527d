use simdeval::evaluate::function::Function;
use simdeval::evaluate::value::single::Single;
use simdeval::evaluate::value::Value;
use simdeval::float::FloatOp;
use simdeval::{Error, Expression, Std};

fn bits_to_number(bits: u64) -> f64 {
    f64::from_bits(bits)
}

fn machine(op: FloatOp) -> u64 {
    match op {
        FloatOp::Add(a, b) => (bits_to_number(a) + bits_to_number(b)).to_bits(),
        FloatOp::Sub(a, b) => (bits_to_number(a) - bits_to_number(b)).to_bits(),
        FloatOp::Mul(a, b) => (bits_to_number(a) * bits_to_number(b)).to_bits(),
        FloatOp::Div(a, b) => (bits_to_number(a) / bits_to_number(b)).to_bits(),
        FloatOp::Rem(a, b) => (bits_to_number(a) % bits_to_number(b)).to_bits(),
        FloatOp::Powf(a, b) => bits_to_number(a).powf(bits_to_number(b)).to_bits(),
        FloatOp::Powi(a, n) => bits_to_number(a).powi(n).to_bits(),
        FloatOp::FromInt(v) => (v as f64).to_bits(),
        FloatOp::ToInt(a) => (bits_to_number(a) as i64) as u64,
        FloatOp::Sqrt(a) => bits_to_number(a).sqrt().to_bits(),
        FloatOp::Log(a, b) => bits_to_number(a).log(bits_to_number(b)).to_bits(),
    }
}

fn reader(text: &[u8]) -> Option<u64> {
    let text = std::str::from_utf8(text).ok()?;
    text.parse::<f64>().ok().map(f64::to_bits)
}

/// A library of the host that holds the standard library.
#[derive(Debug, Clone, Copy, PartialEq)]
enum Host {
    Double,
    Counter,
    Std(Std<4>),
}

impl Function<4> for Host {
    const NAMESPACE: &'static str = "host";

    fn max_args() -> usize {
        2
    }

    fn from_string(namespaces: &[&[u8]], identifier: &[u8]) -> Result<Self, Error> {
        match namespaces.split_first() {
            None => match identifier {
                b"double" => Ok(Host::Double),
                b"counter" => Ok(Host::Counter),
                _ => Err(Error::NoIdentifierMatch),
            },
            Some((first, rest)) => {
                if *first == Self::NAMESPACE.as_bytes() {
                    Self::from_string(rest, identifier)
                } else if *first == <Std<4> as Function<4>>::NAMESPACE.as_bytes() {
                    <Std<4> as Function<4>>::from_string(rest, identifier).map(Host::Std)
                } else {
                    Err(Error::InvalidNamespace)
                }
            }
        }
    }

    fn call<U: Fn(FloatOp) -> u64>(
        &self,
        args: &[Value<4>],
        unit: &U,
    ) -> Result<Value<4>, Error> {
        match self {
            Host::Double => match args {
                [value] => Ok(value.add(*value, unit)),
                _ => Err(Error::InvalidArgs),
            },
            Host::Counter => match args {
                [] => Ok(Value::Single(Single::Int(1))),
                _ => Err(Error::InvalidArgs),
            },
            Host::Std(function) => function.call(args, unit),
        }
    }

    fn is_const(&self) -> bool {
        match self {
            Host::Double => true,
            Host::Counter => false,
            Host::Std(function) => function.is_const(),
        }
    }
}

fn run(source: &str) -> Result<Value<4>, Error> {
    let mut expression = Expression::<Host, 4>::new(source.to_string());
    expression.compile(&reader)?;
    expression.eval(&machine)
}

#[test]
fn a_library_of_the_host() {
    assert_eq!(run("double(4)"), Ok(Value::Single(Single::Int(8))));
    assert_eq!(run("host:double(4)"), Ok(Value::Single(Single::Int(8))));
    assert_eq!(run("host:host:double(1.5)"), Ok(Value::Single(Single::Float(3.0f64.to_bits()))));
    assert_eq!(run("double(double(3))"), Ok(Value::Single(Single::Int(12))));
    assert_eq!(run("counter()"), Ok(Value::Single(Single::Int(1))));
    assert_eq!(run("double(1,2)"), Err(Error::InvalidArgs));
    assert_eq!(run("double()"), Err(Error::InvalidArgs));
}

#[test]
fn a_library_within_a_library() {
    assert_eq!(run("std:sqrt(16)"), Ok(Value::Single(Single::Float(4.0f64.to_bits()))));
    assert_eq!(run("host:std:sqrt(16)"), Ok(Value::Single(Single::Float(4.0f64.to_bits()))));
    assert_eq!(run("std:double(16)"), Err(Error::NoIdentifierMatch));
    assert_eq!(run("sqrt(16)"), Err(Error::NoIdentifierMatch));
    assert_eq!(run("std:host:sqrt(16)"), Err(Error::InvalidNamespace));
    assert_eq!(run("other:double(1)"), Err(Error::InvalidNamespace));
    assert_eq!(run("double(std:sqrt(16))"), Ok(Value::Single(Single::Float(8.0f64.to_bits()))));
}

#[test]
fn only_constant_functions_are_folded() {
    let mut expression = Expression::<Host, 4>::new("double(2)".to_string());
    expression.compile(&reader).unwrap();
    expression.optimize(&machine).unwrap();
    assert_eq!(format!("{:?}", expression.elements()[0]), "Node(Literal(Single(Int(4))))");
    let mut expression = Expression::<Host, 4>::new("counter()".to_string());
    expression.compile(&reader).unwrap();
    expression.optimize(&machine).unwrap();
    assert_eq!(
        format!("{:?}", expression.elements()[0]),
        "Node(Function { function: Counter, args: [] })"
    );
    assert_eq!(expression.eval(&machine), Ok(Value::Single(Single::Int(1))));
}

fn formulas(alphabet: &[u8], length: usize) -> Vec<String> {
    let mut all = vec![String::new()];
    let mut last = vec![String::new()];
    for _ in 0..length {
        let mut next = Vec::new();
        for prefix in &last {
            for &chr in alphabet {
                let mut formula = prefix.clone();
                formula.push(chr as char);
                next.push(formula);
            }
        }
        all.extend(next.iter().cloned());
        last = next;
    }
    all
}

#[test]
fn every_short_formula_is_handled() {
    let mut compiled = 0;
    let mut valued = 0;
    for source in formulas(b"1a+*^-(),.:s =", 5) {
        let mut expression = Expression::<Std<4>, 4>::new(source.clone());
        match expression.compile(&reader) {
            Err(error) => {
                assert_eq!(expression.elements().len(), 0, "{}", source);
                assert_eq!(expression.top_node(), None, "{}", source);
                assert_eq!(expression.eval(&machine), Err(Error::NotCompiled), "{}", source);
                assert_eq!(expression.compile(&reader), Err(error), "{}", source);
            }
            Ok(()) => {
                compiled += 1;
                assert_eq!(expression.compile(&reader), Err(Error::AlreadyCompiled), "{}", source);
                for slot in 0..expression.variables_iter().len() {
                    expression
                        .set_variable_by_index(slot, Value::Single(Single::Int(3)))
                        .unwrap();
                }
                let before = expression.eval(&machine);
                assert_ne!(before, Err(Error::NotCompiled), "{}", source);
                assert_ne!(before, Err(Error::InvalidVariable), "{}", source);
                if before.is_ok() {
                    valued += 1;
                }
                expression.optimize(&machine).unwrap();
                let once = format!("{:?}", expression.elements());
                assert_eq!(expression.eval(&machine), before, "{}", source);
                expression.optimize(&machine).unwrap();
                assert_eq!(format!("{:?}", expression.elements()), once, "{}", source);
                assert_eq!(expression.eval(&machine), before, "{}", source);
            }
        }
    }
    assert!(compiled > 1000);
    assert!(valued > 100);
}

fn binding(piece: &str) -> Option<(simdeval::evaluate::enums::Operator, i16)> {
    use_operator(piece).map(|operator| (operator, operator.weight()))
}

fn use_operator(piece: &str) -> Option<simdeval::evaluate::enums::Operator> {
    match piece {
        "+" => Some(simdeval::evaluate::enums::Operator::Add),
        "-" => Some(simdeval::evaluate::enums::Operator::Sub),
        "*" => Some(simdeval::evaluate::enums::Operator::Mul),
        "=" => Some(simdeval::evaluate::enums::Operator::Equal),
        _ => None,
    }
}

/// Reads an operand by the grammar and works out its value. Nothing is
/// returned where the pieces are no operand.
fn operand(pieces: &[&'static str], at: &mut usize) -> Option<Value<4>> {
    let piece = *pieces.get(*at)?;
    *at += 1;
    match piece {
        "2" => Some(Value::Single(Single::Int(2))),
        "a" => Some(Value::Single(Single::Int(3))),
        "(" => {
            let value = formula(pieces, at, i16::MIN)?;
            if *pieces.get(*at)? != ")" {
                return None;
            }
            *at += 1;
            Some(value)
        }
        "sqrt(" => {
            let value = formula(pieces, at, i16::MIN)?;
            if *pieces.get(*at)? != ")" {
                return None;
            }
            *at += 1;
            Std::<4>::Sqrt.call(&[value], &machine).ok()
        }
        "log(" => {
            let first = formula(pieces, at, i16::MIN)?;
            if *pieces.get(*at)? != "," {
                return None;
            }
            *at += 1;
            let second = formula(pieces, at, i16::MIN)?;
            if *pieces.get(*at)? != ")" {
                return None;
            }
            *at += 1;
            Std::<4>::Log.call(&[first, second], &machine).ok()
        }
        _ => None,
    }
}

/// Reads operands and operators that bind tighter than `floor`, operators of
/// one weight from the left.
fn formula(pieces: &[&'static str], at: &mut usize, floor: i16) -> Option<Value<4>> {
    let mut value = operand(pieces, at)?;
    while let Some((operator, weight)) = pieces.get(*at).and_then(|piece| binding(piece)) {
        if weight <= floor {
            break;
        }
        *at += 1;
        let right = formula(pieces, at, weight)?;
        value = operator.eval(value, right, &machine).ok()?;
    }
    Some(value)
}

/// The formulas of exactly `n` pieces, and the operands of exactly `n`
/// pieces, by the grammar.
fn grammar(most: usize) -> Vec<Vec<Vec<&'static str>>> {
    let mut formulas: Vec<Vec<Vec<&'static str>>> = vec![Vec::new()];
    let mut operands: Vec<Vec<Vec<&'static str>>> = vec![Vec::new()];
    for n in 1..=most {
        let mut found: Vec<Vec<&'static str>> = Vec::new();
        if n == 1 {
            found.push(vec!["2"]);
            found.push(vec!["a"]);
        }
        if n >= 3 {
            for inner in &formulas[n - 2] {
                for open in ["(", "sqrt("] {
                    let mut formula = vec![open];
                    formula.extend(inner.iter().copied());
                    formula.push(")");
                    found.push(formula);
                }
            }
        }
        if n >= 5 {
            for i in 1..=n - 4 {
                for first in &formulas[i] {
                    for second in &formulas[n - 3 - i] {
                        let mut formula = vec!["log("];
                        formula.extend(first.iter().copied());
                        formula.push(",");
                        formula.extend(second.iter().copied());
                        formula.push(")");
                        found.push(formula);
                    }
                }
            }
        }
        operands.push(found.clone());
        if n >= 3 {
            for i in 1..=n - 2 {
                for left in &formulas[i] {
                    for right in &operands[n - 1 - i] {
                        for operator in ["+", "-", "*", "="] {
                            let mut formula = left.clone();
                            formula.push(operator);
                            formula.extend(right.iter().copied());
                            found.push(formula);
                        }
                    }
                }
            }
        }
        formulas.push(found);
    }
    formulas
}

#[test]
fn formulas_with_calls_and_brackets_have_their_values() {
    let mut valued = 0;
    for source in grammar(9).into_iter().flatten() {
        let mut at = 0;
        let expected = match formula(&source, &mut at, i16::MIN) {
            Some(value) if at == source.len() => value,
            _ => continue,
        };
        // A minus behind a bracket is read as a sign, so it is left to its own test.
        if source.windows(2).any(|w| w[1] == "-" && w[0] == ")") {
            continue;
        }
        let text: String = source.concat();
        let mut expression = Expression::<Std<4>, 4>::new(text.clone());
        assert_eq!(expression.compile(&reader), Ok(()), "{}", text);
        expression.set_variable("a", Value::Single(Single::Int(3))).ok();
        assert_eq!(expression.eval(&machine), Ok(expected), "{}", text);
        expression.optimize(&machine).unwrap();
        assert_eq!(expression.eval(&machine), Ok(expected), "{}", text);
        valued += 1;
    }
    assert!(valued > 10000, "{}", valued);
}
