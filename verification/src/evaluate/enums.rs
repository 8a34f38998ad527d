//! The kinds of tokens, the operators and their weights.
use crate::error::Error;
use crate::evaluate::value::single::Single;
use crate::evaluate::value::Value;
use crate::float::{is_float_unit, works_by, FloatOp};
use vstd::prelude::*;

verus! {

/// What a token is.
#[derive(Debug, Clone, Copy, PartialEq, Eq, Structural)]
pub enum TokenKind {
    Literal(Literal),
    Bracket(Bracket),
    Identifier(Identifier),
    Operator(Operator),
    Special(Special),
}

/// The kind of a literal.
#[derive(Debug, Clone, Copy, PartialEq, Eq, Structural)]
pub enum Literal {
    Int,
    Float,
    Bool,
}

/// The side of a bracket.
#[derive(Debug, Clone, Copy, PartialEq, Eq, Structural)]
pub enum Bracket {
    Opened,
    Closed,
}

/// What an identifier names.
#[derive(Debug, Clone, Copy, PartialEq, Eq, Structural)]
pub enum Identifier {
    Function,
    Variable,
}

/// The operators, each of which takes two operands.
#[derive(Debug, Clone, Copy, PartialEq, Eq, Structural)]
pub enum Operator {
    Add,
    Sub,
    Mul,
    Div,
    Mod,
    Pow,
    Not,
    Equal,
    And,
    Or,
    Xor,
    NotEqual,
    Greater,
    GreaterEqual,
    Smaller,
    SmallerEqual,
}

/// The tokens that are neither values nor operators.
#[derive(Debug, Clone, Copy, PartialEq, Eq, Structural)]
pub enum Special {
    /// An identifier that was followed by `:`.
    Namespace,
    /// The zero that is put in front of a unary minus.
    NegZero,
    Comma,
}

impl Bracket {
    /// By how much a bracket shifts the weight of what follows it.
    pub open spec fn shift(self) -> int {
        match self {
            Bracket::Opened => 100,
            Bracket::Closed => -100,
        }
    }

    /// By how much the bracket shifts the weight of what follows it.
    pub fn weight(&self) -> (w: i16)
        ensures
            w == self.shift(),
    {
        match self {
            Bracket::Opened => 100,
            Bracket::Closed => -100,
        }
    }
}

impl Operator {
    /// How tightly an operator binds: a larger weight lies deeper in the tree
    /// and is evaluated first.
    pub open spec fn binding(self) -> int {
        match self {
            Operator::Add => 20,
            Operator::Sub => 20,
            Operator::Mul => 21,
            Operator::Div => 21,
            Operator::Mod => 22,
            Operator::Pow => 22,
            Operator::Not => 1,
            Operator::Equal => 2,
            Operator::And => 3,
            Operator::Or => 4,
            Operator::Xor => 5,
            Operator::NotEqual => 7,
            Operator::Greater => 8,
            Operator::GreaterEqual => 9,
            Operator::Smaller => 10,
            Operator::SmallerEqual => 11,
        }
    }

    /// Whether the operator works on numbers and gives a number.
    pub open spec fn is_arithmetic(self) -> bool {
        self is Add || self is Sub || self is Mul || self is Div || self is Mod || self is Pow
    }

    /// How tightly the operator binds.
    pub fn weight(&self) -> (w: i16)
        ensures
            w == self.binding(),
    {
        match self {
            Operator::Add => 20,
            Operator::Sub => 20,
            Operator::Mul => 21,
            Operator::Div => 21,
            Operator::Mod => 22,
            Operator::Pow => 22,
            Operator::Not => 1,
            Operator::Equal => 2,
            Operator::And => 3,
            Operator::Or => 4,
            Operator::Xor => 5,
            Operator::NotEqual => 7,
            Operator::Greater => 8,
            Operator::GreaterEqual => 9,
            Operator::Smaller => 10,
            Operator::SmallerEqual => 11,
        }
    }
}

impl Operator {
    /// What the operator makes of two values.
    ///
    /// An arithmetic operator works by the rules of [`Value::arithmetic`]. A
    /// comparison gives a boolean by the order and the equality of values,
    /// in which an integer and a floating-point number are never equal. A
    /// logical operator gives a boolean of the truth of the two values. `!`
    /// takes one operand and so has no result for two.
    pub open spec fn apply<const LANES: usize>(
        self,
        lhs: Value<LANES>,
        rhs: Value<LANES>,
        rule: spec_fn(FloatOp) -> u64,
    ) -> Result<Value<LANES>, Error> {
        match self {
            Operator::Not => Err(Error::UnexpectedToken),
            Operator::Equal => Ok(Value::Single(Single::Bool(lhs.same(rhs)))),
            Operator::NotEqual => Ok(Value::Single(Single::Bool(!lhs.same(rhs)))),
            Operator::Greater => Ok(Value::Single(Single::Bool(rhs.under(lhs)))),
            Operator::GreaterEqual => Ok(
                Value::Single(Single::Bool(rhs.under(lhs) || lhs.same(rhs))),
            ),
            Operator::Smaller => Ok(Value::Single(Single::Bool(lhs.under(rhs)))),
            Operator::SmallerEqual => Ok(
                Value::Single(Single::Bool(lhs.under(rhs) || lhs.same(rhs))),
            ),
            Operator::And => Ok(Value::Single(Single::Bool(lhs.truth() && rhs.truth()))),
            Operator::Or => Ok(Value::Single(Single::Bool(lhs.truth() || rhs.truth()))),
            Operator::Xor => Ok(Value::Single(Single::Bool(lhs.truth() != rhs.truth()))),
            _ => lhs.arithmetic(rhs, self, rule),
        }
    }

    /// Applies the operator to two values.
    pub fn eval<U: Fn(FloatOp) -> u64, const LANES: usize>(
        &self,
        lhs: Value<LANES>,
        rhs: Value<LANES>,
        unit: &U,
    ) -> (r: Result<Value<LANES>, Error>)
        requires
            is_float_unit(unit),
        ensures
            forall|rule: spec_fn(FloatOp) -> u64|
                works_by(unit, rule) ==> r == self.apply(lhs, rhs, rule),
    {
        match self {
            Operator::Add => Ok(lhs.add(rhs, unit)),
            Operator::Sub => Ok(lhs.sub(rhs, unit)),
            Operator::Mul => Ok(lhs.mul(rhs, unit)),
            Operator::Div => lhs.div(rhs, unit),
            Operator::Mod => lhs.rem(rhs, unit),
            Operator::Pow => lhs.pow(rhs, unit),
            Operator::Not => Err(Error::UnexpectedToken),
            Operator::Equal => Ok(Value::Single(Single::Bool(lhs.is_same(&rhs)))),
            Operator::NotEqual => Ok(Value::Single(Single::Bool(!lhs.is_same(&rhs)))),
            Operator::Greater => Ok(Value::Single(Single::Bool(rhs.is_under(&lhs)))),
            Operator::GreaterEqual => Ok(
                Value::Single(Single::Bool(rhs.is_under(&lhs) || lhs.is_same(&rhs))),
            ),
            Operator::Smaller => Ok(Value::Single(Single::Bool(lhs.is_under(&rhs)))),
            Operator::SmallerEqual => Ok(
                Value::Single(Single::Bool(lhs.is_under(&rhs) || lhs.is_same(&rhs))),
            ),
            Operator::And => Ok(Value::Single(Single::Bool(lhs.as_bool() && rhs.as_bool()))),
            Operator::Or => Ok(Value::Single(Single::Bool(lhs.as_bool() || rhs.as_bool()))),
            Operator::Xor => Ok(Value::Single(Single::Bool(lhs.as_bool() != rhs.as_bool()))),
        }
    }
}

/// Every arithmetic operator binds tighter than every logical or comparison
/// operator, a multiplicative one tighter than an additive one, and a bracket
/// shifts by more than any two operators differ.
pub proof fn lemma_weight_bands(a: Operator, b: Operator)
    ensures
        a.is_arithmetic() && !b.is_arithmetic() ==> a.binding() > b.binding(),
        (a is Mul || a is Div || a is Mod || a is Pow) && (b is Add || b is Sub) ==> a.binding()
            > b.binding(),
        0 < a.binding() < Bracket::Opened.shift(),
        a.binding() - b.binding() < Bracket::Opened.shift(),
        Bracket::Opened.shift() + Bracket::Closed.shift() == 0,
{
}

} // verus!
