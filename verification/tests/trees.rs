use simdeval::evaluate::enums::{Bracket, Identifier, Literal, Operator, Special, TokenKind};
use simdeval::evaluate::function::Function;
use simdeval::evaluate::lexing::{
    AMPERSAND, BANG, CARET, CLOSE, COLON, COMMA, DIGIT_0, DIGIT_9, DOT, EQUALS, GREATER, HASH,
    LESS, LOWER_A, LOWER_Z, MINUS, OPEN, PERCENT, PIPE, PLUS, SLASH, SPACE, STAR, UPPER_A,
    UPPER_Z,
};
use simdeval::evaluate::node::Node;
use simdeval::evaluate::parse_element::ParseElement;
use simdeval::evaluate::token::Token;
use simdeval::evaluate::value::single::Single;
use simdeval::evaluate::value::Value;
use simdeval::float::FloatOp;
use simdeval::stack::Stack;
use simdeval::{Error, Expression, Std};

fn to_number(bits: u64) -> f64 {
    f64::from_bits(bits)
}

fn fpu(op: FloatOp) -> u64 {
    match op {
        FloatOp::Add(a, b) => (to_number(a) + to_number(b)).to_bits(),
        FloatOp::Sub(a, b) => (to_number(a) - to_number(b)).to_bits(),
        FloatOp::Mul(a, b) => (to_number(a) * to_number(b)).to_bits(),
        FloatOp::Div(a, b) => (to_number(a) / to_number(b)).to_bits(),
        FloatOp::Rem(a, b) => (to_number(a) % to_number(b)).to_bits(),
        FloatOp::Powf(a, b) => to_number(a).powf(to_number(b)).to_bits(),
        FloatOp::Powi(a, n) => to_number(a).powi(n).to_bits(),
        FloatOp::FromInt(v) => (v as f64).to_bits(),
        FloatOp::ToInt(a) => (to_number(a) as i64) as u64,
        FloatOp::Sqrt(a) => to_number(a).sqrt().to_bits(),
        FloatOp::Log(a, b) => to_number(a).log(to_number(b)).to_bits(),
    }
}

fn literals(text: &[u8]) -> Option<u64> {
    let text = std::str::from_utf8(text).ok()?;
    text.parse::<f64>().ok().map(f64::to_bits)
}

fn compiled(source: &str) -> Expression<Std<8>, 8> {
    let mut expression = Expression::<Std<8>, 8>::new(source.to_string());
    expression.compile(&literals).unwrap();
    expression
}

fn failure(source: &str) -> Error {
    let mut expression = Expression::<Std<8>, 8>::new(source.to_string());
    let error = expression.compile(&literals).unwrap_err();
    assert_eq!(expression.elements().len(), 0);
    assert_eq!(expression.variables_iter().len(), 0);
    assert_eq!(expression.top_node(), None);
    error
}

fn result(source: &str) -> Result<Value<8>, Error> {
    compiled(source).eval(&fpu)
}

fn literal(v: i64) -> ParseElement<Std<8>, 8> {
    ParseElement::Node(Node::Literal(Value::Single(Single::Int(v))))
}

fn instruction(operator: Operator, lhs: usize, rhs: usize) -> ParseElement<Std<8>, 8> {
    ParseElement::Node(Node::Instruction { operator, lhs, rhs })
}

fn token(token_kind: TokenKind, start: usize, end: usize) -> ParseElement<Std<8>, 8> {
    ParseElement::Token(Token { token_kind, start, end })
}

fn ok_int(v: i64) -> Result<Value<8>, Error> {
    Ok(Value::Single(Single::Int(v)))
}

fn ok_float(v: f64) -> Result<Value<8>, Error> {
    Ok(Value::Single(Single::Float(v.to_bits())))
}

fn ok_bool(v: bool) -> Result<Value<8>, Error> {
    Ok(Value::Single(Single::Bool(v)))
}

#[test]
fn tree_of_sum_and_product() {
    let expression = compiled("2+3*4");
    assert_eq!(
        expression.elements(),
        &[
            literal(2),
            instruction(Operator::Add, 0, 3),
            literal(3),
            instruction(Operator::Mul, 2, 4),
            literal(4),
        ]
    );
    assert_eq!(expression.top_node(), Some(1));
}

#[test]
fn tree_with_brackets() {
    let expression = compiled("(2+3)*4");
    assert_eq!(
        expression.elements(),
        &[
            token(TokenKind::Bracket(Bracket::Opened), 0, 1),
            literal(2),
            instruction(Operator::Add, 1, 3),
            literal(3),
            token(TokenKind::Bracket(Bracket::Closed), 4, 5),
            instruction(Operator::Mul, 2, 6),
            literal(4),
        ]
    );
    assert_eq!(expression.top_node(), Some(5));
}

#[test]
fn unary_minus_leaves_a_zero_and_a_subtraction() {
    let expression = compiled("-5+3");
    assert_eq!(
        expression.elements(),
        &[
            literal(0),
            instruction(Operator::Sub, 0, 2),
            literal(5),
            instruction(Operator::Add, 1, 4),
            literal(3),
        ]
    );
    assert_eq!(expression.top_node(), Some(3));
    assert_eq!(result("2*-3"), ok_int(-3));
    assert_eq!(result("(-3)"), ok_int(-3));
    assert_eq!(result("2-3"), ok_int(-1));
    assert_eq!(result("(2)-3"), ok_int(-3));
}

#[test]
fn folding_replaces_what_is_known() {
    let mut expression = compiled("2+2+a");
    assert_eq!(
        expression.elements(),
        &[
            literal(2),
            instruction(Operator::Add, 0, 2),
            literal(2),
            instruction(Operator::Add, 1, 4),
            ParseElement::Node(Node::Variable { index: 0 }),
        ]
    );
    expression.optimize(&fpu).unwrap();
    assert_eq!(
        expression.elements(),
        &[
            literal(2),
            literal(4),
            literal(2),
            instruction(Operator::Add, 1, 4),
            ParseElement::Node(Node::Variable { index: 0 }),
        ]
    );
    expression.set_variable("a", Value::Single(Single::Int(5))).unwrap();
    assert_eq!(expression.eval(&fpu), ok_int(9));
}

#[test]
fn folding_twice_is_folding_once() {
    for source in [
        "2+2+a",
        "2+3*4",
        "sqrt(16)+a",
        "print(2+3)",
        "log(8,2)",
        "1/0+2*3",
        "a+b*2^3",
        "1+",
        "1+*2",
        "sqrt(1,2)",
        "1.5*2",
    ] {
        let mut expression = compiled(source);
        let before = expression.eval(&fpu);
        expression.optimize(&fpu).unwrap();
        let once = format!("{:?}", expression.elements());
        let value = expression.eval(&fpu);
        assert_eq!(value, before, "{}", source);
        expression.optimize(&fpu).unwrap();
        assert_eq!(format!("{:?}", expression.elements()), once, "{}", source);
        assert_eq!(expression.eval(&fpu), value, "{}", source);
    }
}

#[test]
fn folding_a_whole_formula() {
    let mut expression = compiled("3+1+5+3");
    expression.optimize(&fpu).unwrap();
    assert_eq!(expression.elements()[5], literal(12));
    assert_eq!(expression.eval(&fpu), ok_int(12));
}

#[test]
fn folding_keeps_what_is_not_constant() {
    let mut expression = compiled("print(2+3)");
    expression.optimize(&fpu).unwrap();
    assert_eq!(expression.elements()[3], literal(5));
    assert_eq!(
        expression.elements()[0],
        ParseElement::Node(Node::Function { function: Std::Print, args: vec![3] })
    );
    assert_eq!(expression.eval(&fpu), ok_int(0));
}

#[test]
fn folding_a_constant_call() {
    let mut expression = compiled("sqrt(16)");
    expression.optimize(&fpu).unwrap();
    assert_eq!(
        expression.elements()[0],
        ParseElement::Node(Node::Literal(Value::Single(Single::Float(4.0f64.to_bits()))))
    );
    assert_eq!(expression.eval(&fpu), ok_float(4.0));
}

#[test]
fn folding_leaves_what_has_no_value() {
    let mut expression = compiled("1/0");
    expression.optimize(&fpu).unwrap();
    assert_eq!(expression.elements()[1], instruction(Operator::Div, 0, 2));
    assert_eq!(expression.eval(&fpu), Err(Error::ArithmeticOverflow));
}

#[test]
fn optimize_before_compile() {
    let mut expression = Expression::<Std<8>, 8>::new("1+1".to_string());
    assert_eq!(expression.optimize(&fpu), Err(Error::NotCompiled));
}

#[test]
fn variables_have_their_slots_in_the_order_of_first_use() {
    let mut expression = compiled("b+a+b*c2");
    assert_eq!(
        expression.variables_iter(),
        vec![b"b".to_vec(), b"a".to_vec(), b"c2".to_vec()]
    );
    assert_eq!(expression.variable_index("b"), Some(0));
    assert_eq!(expression.variable_index("a"), Some(1));
    assert_eq!(expression.variable_index("c2"), Some(2));
    assert_eq!(expression.variable_index("c"), None);
    assert_eq!(expression.variable(0), Some(Value::Single(Single::Int(0))));
    assert_eq!(expression.variable(3), None);
    assert_eq!(expression.eval(&fpu), ok_int(0));
    expression.set_variable("a", Value::Single(Single::Int(7))).unwrap();
    assert_eq!(expression.variable_index("a"), Some(1));
    assert_eq!(expression.variable(1), Some(Value::Single(Single::Int(7))));
    assert_eq!(
        expression.variables_iter(),
        vec![b"b".to_vec(), b"a".to_vec(), b"c2".to_vec()]
    );
}

#[test]
fn a_new_formula_starts_over() {
    let mut expression = compiled("a+1");
    assert_eq!(expression.string(), "a+1");
    expression.set_expression("b*2".to_string());
    assert_eq!(expression.string(), "b*2");
    assert_eq!(expression.top_node(), None);
    assert_eq!(expression.elements().len(), 0);
    assert_eq!(expression.variables_iter().len(), 0);
    assert_eq!(expression.eval(&fpu), Err(Error::NotCompiled));
    expression.compile(&literals).unwrap();
    assert_eq!(expression.variables_iter(), vec![b"b".to_vec()]);
    expression.set_variable("b", Value::Single(Single::Int(4))).unwrap();
    assert_eq!(expression.eval(&fpu), ok_int(8));
}

#[test]
fn a_formula_that_fails_can_be_compiled_again() {
    let mut expression = Expression::<Std<8>, 8>::new("a+@".to_string());
    assert_eq!(expression.compile(&literals), Err(Error::UnknownCharacter('@')));
    assert_eq!(expression.compile(&literals), Err(Error::UnknownCharacter('@')));
    assert_eq!(expression.elements().len(), 0);
}

#[test]
fn spaces_are_dropped() {
    assert_eq!(result(" 2 + 3"), ok_int(5));
    assert_eq!(result("2 +3 "), ok_int(5));
    assert_eq!(failure("1 2"), Error::InvalidToken);
}

#[test]
fn float_literals() {
    assert_eq!(result("1.5+2"), ok_float(3.5));
    assert_eq!(result(".5*4"), ok_float(2.0));
    assert_eq!(result("4.5"), ok_float(4.5));
    assert_eq!(failure("."), Error::InvalidToken);
    let expression = compiled("1.2.5");
    assert_eq!(expression.elements().len(), 2);
}

#[test]
fn comparisons_and_logic() {
    assert_eq!(result("1=1"), ok_bool(true));
    assert_eq!(result("1=2"), ok_bool(false));
    assert_eq!(result("1=!2"), ok_bool(true));
    assert_eq!(result("2=>2"), ok_bool(true));
    assert_eq!(result("1=>2"), ok_bool(false));
    assert_eq!(result("1=<2"), ok_bool(true));
    assert_eq!(result("3>2"), ok_bool(true));
    assert_eq!(result("3<2"), ok_bool(false));
    assert_eq!(result("1&0"), ok_bool(false));
    assert_eq!(result("1|0"), ok_bool(true));
    assert_eq!(result("1#1"), ok_bool(false));
    assert_eq!(result("5=5.0"), ok_bool(false));
    assert_eq!(result("1!2"), Err(Error::UnexpectedToken));
    assert_eq!(result("1+1=2"), ok_bool(true));
}

#[test]
fn tokens_of_a_call() {
    let expression = compiled("std:log(8,2)");
    assert_eq!(
        expression.elements(),
        &[
            token(TokenKind::Special(Special::Namespace), 0, 3),
            ParseElement::Node(Node::Function { function: Std::Log, args: vec![3, 5] }),
            token(TokenKind::Bracket(Bracket::Opened), 7, 8),
            literal(8),
            token(TokenKind::Special(Special::Comma), 9, 10),
            literal(2),
            token(TokenKind::Bracket(Bracket::Closed), 11, 12),
        ]
    );
    assert_eq!(expression.top_node(), Some(1));
    assert_eq!(expression.eval(&fpu), ok_float(3.0));
}

#[test]
fn calls_of_the_standard_library() {
    assert_eq!(result("sqrt(4)"), ok_float(2.0));
    assert_eq!(result("sqrt(2.25)"), ok_float(1.5));
    assert_eq!(result("std:std:sqrt(4)"), ok_float(2.0));
    assert_eq!(result("abs(-3)"), ok_int(3));
    assert_eq!(result("abs(3)"), ok_int(3));
    assert_eq!(result("abs(-1.5)"), ok_float(1.5));
    assert_eq!(result("log(8,2)"), ok_float(3.0));
    assert_eq!(result("print(5)"), ok_int(0));
    assert_eq!(result("sqrt(3+1)"), ok_float(2.0));
    assert_eq!(result("sqrt(sqrt(16))"), ok_float(2.0));
    assert_eq!(result("log(sqrt(64),1+1)"), ok_float(3.0));
    assert_eq!(result("1+sqrt(4)"), ok_float(3.0));
    assert_eq!(result("sqrt(4)+1"), ok_float(3.0));
    assert_eq!(result("2*sqrt(3+1)"), ok_float(4.0));
    assert_eq!(result("sqrt(4)*sqrt(9)+1"), ok_float(7.0));
    assert_eq!(result("log(2*4,1+1)"), ok_float(3.0));
    assert_eq!(result("sqrt(abs(-4)*4)"), ok_float(4.0));
    assert_eq!(result("(sqrt(16))"), ok_float(4.0));
    assert_eq!(result("sqrt()"), Err(Error::InvalidArgs));
    assert_eq!(result("log(8)"), Err(Error::InvalidArgs));
    assert_eq!(result("sqrt(4"), Err(Error::InvalidArgs));
    assert_eq!(result("sqrt((1+3)*4)"), ok_float(4.0));
}

#[test]
fn resolving_names() {
    let std: &[u8] = b"std";
    let other: &[u8] = b"other";
    assert_eq!(<Std<8> as Function<8>>::from_string(&[], b"sqrt"), Ok(Std::Sqrt));
    assert_eq!(<Std<8> as Function<8>>::from_string(&[std], b"print"), Ok(Std::Print));
    assert_eq!(<Std<8> as Function<8>>::from_string(&[std, std], b"log"), Ok(Std::Log));
    assert_eq!(<Std<8> as Function<8>>::from_string(&[std], b"abs"), Ok(Std::Abs));
    assert_eq!(
        <Std<8> as Function<8>>::from_string(&[std], b"cos"),
        Err(Error::NoIdentifierMatch)
    );
    assert_eq!(
        <Std<8> as Function<8>>::from_string(&[other], b"sqrt"),
        Err(Error::InvalidNamespace)
    );
    assert_eq!(
        <Std<8> as Function<8>>::from_string(&[std, other], b"cos"),
        Err(Error::InvalidNamespace)
    );
    assert_eq!(<Std<8> as Function<8>>::max_args(), 2);
    assert_eq!(<Std<8> as Function<8>>::NAMESPACE, "std");
    assert!(<Std<8> as Function<8>>::is_const(&Std::Sqrt));
    assert!(<Std<8> as Function<8>>::is_const(&Std::Log));
    assert!(<Std<8> as Function<8>>::is_const(&Std::Abs));
    assert!(!<Std<8> as Function<8>>::is_const(&Std::Print));
}

#[test]
fn calling_the_standard_library() {
    let four: Value<2> = Value::Single(Single::Int(4));
    let yes: Value<2> = Value::Single(Single::Bool(true));
    let lanes: Value<2> = Value::Simd(simdeval::evaluate::value::simd::Simd::Float([0, 0]));
    assert_eq!(
        Std::<2>::Sqrt.call(&[four], &fpu),
        Ok(Value::Single(Single::Float(2.0f64.to_bits())))
    );
    assert_eq!(
        Std::<2>::Sqrt.call(&[yes], &fpu),
        Ok(Value::Single(Single::Float(1.0f64.to_bits())))
    );
    assert_eq!(Std::<2>::Abs.call(&[yes], &fpu), Ok(yes));
    assert_eq!(
        Std::<2>::Abs.call(&[Value::<2>::Single(Single::Int(i64::MIN))], &fpu),
        Err(Error::ArithmeticOverflow)
    );
    assert_eq!(Std::<2>::Sqrt.call(&[four, four], &fpu), Err(Error::InvalidArgs));
    assert_eq!(Std::<2>::Log.call(&[four], &fpu), Err(Error::InvalidArgs));
    assert_eq!(Std::<2>::Sqrt.call(&[lanes], &fpu), Err(Error::InvalidArgs));
    assert_eq!(Std::<2>::Log.call(&[four, lanes], &fpu), Err(Error::InvalidArgs));
    assert_eq!(Std::<2>::Print.call(&[four], &fpu), Ok(Value::Single(Single::Int(0))));
}

#[test]
fn every_error_has_an_input() {
    assert_eq!(failure("@"), Error::UnknownCharacter('@'));
    assert_eq!(failure("1@"), Error::UnknownCharacter('@'));
    assert_eq!(failure("1\t2"), Error::UnknownCharacter('\t'));
    assert_eq!(failure(":"), Error::UnexpectedToken);
    assert_eq!(failure("1:2"), Error::UnexpectedToken);
    assert_eq!(failure("std:cos(1)"), Error::NoIdentifierMatch);
    assert_eq!(failure("99999999999999999999"), Error::InvalidToken);
    assert_eq!(failure("math:sqrt(1)"), Error::InvalidNamespace);
    assert_eq!(result("sqrt(1,2)"), Err(Error::InvalidArgs));
    assert_eq!(
        compiled("a").set_variable("b", Value::Single(Single::Int(1))),
        Err(Error::InvalidVariable)
    );
    assert_eq!(
        Expression::<Std<8>, 8>::new("1".to_string()).eval(&fpu),
        Err(Error::NotCompiled)
    );
    assert_eq!(compiled("1").compile(&literals), Err(Error::AlreadyCompiled));
    assert_eq!(result("1+"), Err(Error::InvalidIndex));
    assert_eq!(result("+1"), Err(Error::InvalidIndex));
    assert_eq!(result("1+*2"), Err(Error::InvalidIndex));
    assert_eq!(failure(""), Error::EmptyExpression);
    assert_eq!(result("2^64"), Err(Error::ArithmeticOverflow));
    assert_eq!(result("1/0"), Err(Error::ArithmeticOverflow));
    assert_eq!(failure("sqrt(1,2,3)"), Error::CapacityExceeded);
    assert_eq!(failure("a:b:c:d:e:sqrt(1)"), Error::CapacityExceeded);
}

#[test]
fn tokens_by_themselves() {
    let mut token = Token::new(TokenKind::Literal(Literal::Int), 3);
    assert_eq!(token, Token { token_kind: TokenKind::Literal(Literal::Int), start: 3, end: 4 });
    assert_eq!(token.kind(), TokenKind::Literal(Literal::Int));
    token.inc_end();
    assert_eq!(token.end, 5);
    token.set_inc(TokenKind::Literal(Literal::Float));
    assert_eq!(token, Token { token_kind: TokenKind::Literal(Literal::Float), start: 3, end: 6 });
    token.set_kind(TokenKind::Identifier(Identifier::Variable));
    assert_eq!(token.kind(), TokenKind::Identifier(Identifier::Variable));
    assert_eq!(token.slice(b"0123456789"), b"345");
    assert_eq!(
        Token::new_neg_zero(),
        Token { token_kind: TokenKind::Special(Special::NegZero), start: 0, end: 0 }
    );
    assert_eq!(Token::new_neg_zero().slice(b"abc"), b"");
}

#[test]
fn elements_and_nodes_by_themselves() {
    let node: Node<Std<8>, 8> = Node::Instruction { operator: Operator::Mul, lhs: 1, rhs: 2 };
    assert_eq!(node.weight(), 21);
    assert_eq!(node.instruction_indices(), Some((1, 2)));
    let node: Node<Std<8>, 8> = Node::Variable { index: 0 };
    assert_eq!(node.weight(), 0);
    assert_eq!(node.instruction_indices(), None);
    assert_eq!(instruction(Operator::Add, 4, 6).get_operands_indices(), Some((4, 6)));
    assert_eq!(literal(1).get_operands_indices(), None);
    assert_eq!(literal(1).token_kind(), None);
    assert_eq!(
        token(TokenKind::Special(Special::Comma), 0, 1).token_kind(),
        Some(TokenKind::Special(Special::Comma))
    );
}

#[test]
fn a_stack_holds_no_more_than_its_size() {
    let mut stack = Stack::<u8, 2>::new();
    assert_eq!(stack.len(), 0);
    assert_eq!(stack.pop(), None);
    assert_eq!(stack.full_array(), None);
    assert_eq!(stack.push(1), Ok(()));
    assert_eq!(stack.push(2), Ok(()));
    assert_eq!(stack.push(3), Err(Error::CapacityExceeded));
    assert_eq!(stack.len(), 2);
    assert_eq!(stack.slice(), &[1, 2]);
    assert_eq!(stack.full_array(), Some([1, 2]));
    assert_eq!(stack.pop(), Some(2));
    assert_eq!(stack.slice(), &[1]);
    assert_eq!(stack.full_array(), None);
    stack.clear();
    assert_eq!(stack.len(), 0);
    let mut none = Stack::<u8, 0>::new();
    assert_eq!(none.push(1), Err(Error::CapacityExceeded));
    assert_eq!(none.full_array(), None);
}

#[test]
fn a_formula_on_vectors() {
    let mut expression = compiled("a*2+1.5");
    expression.to_simd(&fpu);
    let lanes = [0.0f64, 1.0, 2.0, 3.0, 4.0, 5.0, 6.0, 7.0];
    expression
        .set_variable_by_index(
            0,
            Value::Simd(simdeval::evaluate::value::simd::Simd::Float(lanes.map(f64::to_bits))),
        )
        .unwrap();
    assert_eq!(
        expression.eval(&fpu),
        Ok(Value::Simd(simdeval::evaluate::value::simd::Simd::Float(
            lanes.map(|v| (v * 2.0 + 1.5).to_bits())
        )))
    );
}

#[test]
fn the_codes_of_the_bytes() {
    assert_eq!(
        [
            DIGIT_0, DIGIT_9, LOWER_A, LOWER_Z, UPPER_A, UPPER_Z, SPACE, COLON, DOT, COMMA, PLUS,
            MINUS, STAR, SLASH, PERCENT, CARET, EQUALS, BANG, GREATER, LESS, AMPERSAND, PIPE,
            HASH, OPEN, CLOSE,
        ],
        *b"09azAZ :.,+-*/%^=!><&|#()"
    );
}

#[test]
fn a_source_of_spaces() {
    let expression = compiled("   ");
    assert_eq!(expression.elements().len(), 0);
    assert_eq!(expression.top_node(), Some(0));
    assert_eq!(expression.eval(&fpu), Err(Error::InvalidIndex));
}

#[test]
fn names_may_hold_digits_and_both_cases() {
    let mut expression = compiled("aB1+Ab1*2");
    assert_eq!(expression.variables_iter(), vec![b"aB1".to_vec(), b"Ab1".to_vec()]);
    expression.set_variable("aB1", Value::Single(Single::Int(1))).unwrap();
    expression.set_variable("Ab1", Value::Single(Single::Int(3))).unwrap();
    assert_eq!(expression.eval(&fpu), ok_int(7));
}

#[test]
fn an_expression_without_a_formula() {
    let mut expression = Expression::<Std<8>, 8>::default();
    assert_eq!(expression.string(), "");
    assert_eq!(expression.top_node(), None);
    assert_eq!(expression.compile(&literals), Err(Error::EmptyExpression));
    expression.set_expression("1+2".to_string());
    assert_eq!(expression.compile(&literals), Ok(()));
    assert_eq!(expression.eval(&fpu), ok_int(3));
}

#[test]
fn every_instruction_is_reached() {
    assert_eq!(result("1+2*3+4"), ok_int(11));
    assert_eq!(result("2+6^2*4"), ok_int(146));
    assert_eq!(result("1-2-3-4"), ok_int(-8));
    assert_eq!(result("1+2*3-4*5+6"), ok_int(-7));
    assert_eq!(result("2*3+4*5"), ok_int(26));
    assert_eq!(result("2^3*4+5"), ok_int(37));
    assert_eq!(result("5+4*3^2"), ok_int(41));
    assert_eq!(result("4>3&1+1"), ok_bool(true));
    assert_eq!(result("4<3|2*0"), ok_bool(false));
    let expression = compiled("1+2*3+4");
    assert_eq!(
        expression.elements(),
        &[
            literal(1),
            instruction(Operator::Add, 0, 3),
            literal(2),
            instruction(Operator::Mul, 2, 4),
            literal(3),
            instruction(Operator::Add, 1, 6),
            literal(4),
        ]
    );
    assert_eq!(expression.top_node(), Some(5));
}

#[test]
fn operands_in_brackets() {
    assert_eq!(result("2*(3)"), ok_int(6));
    assert_eq!(result("(5)"), ok_int(5));
    assert_eq!(result("((5))"), ok_int(5));
    assert_eq!(result("2+(3)"), ok_int(5));
    assert_eq!(result("(2)+(3)"), ok_int(5));
    assert_eq!(result("(a)"), ok_int(0));
    assert_eq!(result("2*(3+4)*5"), ok_int(70));
    assert_eq!(result("2*((3+4)*5)"), ok_int(70));
    assert_eq!(result("((2+3)*(4+5))"), ok_int(45));
    assert_eq!(result("2^(1+2)^2"), ok_int(64));
    assert_eq!(result("100-(10-(5-2))"), ok_int(93));
    let expression = compiled("2*(3)");
    assert_eq!(
        expression.elements(),
        &[
            literal(2),
            instruction(Operator::Mul, 0, 3),
            token(TokenKind::Bracket(Bracket::Opened), 2, 3),
            literal(3),
            token(TokenKind::Bracket(Bracket::Closed), 4, 5),
        ]
    );
    assert_eq!(expression.top_node(), Some(1));
}

fn reached(elements: &[ParseElement<Std<8>, 8>], index: usize, depth: usize, out: &mut Vec<usize>) {
    if depth == 0 || index >= elements.len() {
        return;
    }
    match elements[index].get_operands_indices() {
        Some((lhs, rhs)) => {
            reached(elements, lhs, depth - 1, out);
            out.push(index);
            reached(elements, rhs, depth - 1, out);
        }
        None => {
            if let ParseElement::Node(_) = elements[index] {
                out.push(index);
            }
        }
    }
}

fn alternates(elements: &[ParseElement<Std<8>, 8>]) -> bool {
    let mut operand_due = true;
    for element in elements {
        match element {
            ParseElement::Token(token) => match token.kind() {
                TokenKind::Bracket(_) => {}
                _ => return false,
            },
            ParseElement::Node(Node::Literal(_)) | ParseElement::Node(Node::Variable { .. }) => {
                if !operand_due {
                    return false;
                }
                operand_due = false;
            }
            ParseElement::Node(Node::Instruction { .. }) => {
                if operand_due {
                    return false;
                }
                operand_due = true;
            }
            ParseElement::Node(Node::Function { .. }) => return false,
        }
    }
    !operand_due
}

fn short_formulas(alphabet: &[u8], length: usize) -> Vec<String> {
    let mut all = Vec::new();
    let mut last = vec![String::new()];
    for _ in 0..length {
        let mut next = Vec::new();
        for prefix in &last {
            for &chr in alphabet {
                let mut formula = prefix.clone();
                formula.push(chr as char);
                next.push(formula);
            }
        }
        all.extend(next.iter().cloned());
        last = next;
    }
    all
}

#[test]
fn what_alternates_is_one_tree() {
    let mut trees = 0;
    for source in short_formulas(b"1a+*^=()-", 7) {
        let mut expression = Expression::<Std<8>, 8>::new(source.clone());
        if expression.compile(&literals).is_err() {
            continue;
        }
        if !alternates(expression.elements()) {
            continue;
        }
        trees += 1;
        let elements = expression.elements();
        let nodes: Vec<usize> = (0..elements.len())
            .filter(|&i| matches!(elements[i], ParseElement::Node(_)))
            .collect();
        let mut walk = Vec::new();
        reached(elements, expression.top_node().unwrap(), elements.len(), &mut walk);
        assert_eq!(walk, nodes, "{}", source);
        assert_ne!(expression.eval(&fpu), Err(Error::InvalidIndex), "{}", source);
    }
    assert!(trees > 10000);
}
