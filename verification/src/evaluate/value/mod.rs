//! Values: single values and vectors of values.
use crate::error::Error;
use crate::evaluate::enums::Operator;
use crate::float::{is_float_unit, works_by, FloatOp};
use vstd::array::spec_array_fill_for_copy_type;
use vstd::prelude::*;

pub mod simd;
pub mod single;

use simd::Simd;
use single::Single;

verus! {

/// What a formula works on: one value, or a vector of values that are worked
/// on together.
#[derive(Debug, Clone, Copy, PartialEq, Eq)]
pub enum Value<const LANES: usize> {
    Simd(Simd<LANES>),
    Single(Single),
}

impl<const LANES: usize> Value<LANES> {
    /// The value as a vector: a single value is put in every lane as a
    /// floating-point number.
    pub open spec fn spread(self, rule: spec_fn(FloatOp) -> u64) -> Simd<LANES> {
        match self {
            Value::Simd(v) => v,
            Value::Single(v) => Simd::Float(
                spec_array_fill_for_copy_type::<u64, LANES>(v.number(rule)),
            ),
        }
    }

    /// What an arithmetic operator makes of two values. Two single values
    /// give a single value by the rules of [`Single`]. Where one of the two
    /// is a vector the other is spread, and the unit is asked lane by lane.
    pub open spec fn arithmetic(
        self,
        rhs: Value<LANES>,
        op: Operator,
        rule: spec_fn(FloatOp) -> u64,
    ) -> Result<Value<LANES>, Error>
        recommends
            op.is_arithmetic(),
    {
        match (self, rhs) {
            (Value::Single(l), Value::Single(r)) => match op {
                Operator::Add => Ok(Value::Single(l.plus(r, rule))),
                Operator::Sub => Ok(Value::Single(l.minus(r, rule))),
                Operator::Mul => Ok(Value::Single(l.times(r, rule))),
                Operator::Div => match l.quotient(r, rule) {
                    Ok(v) => Ok(Value::Single(v)),
                    Err(e) => Err(e),
                },
                Operator::Mod => match l.remainder(r, rule) {
                    Ok(v) => Ok(Value::Single(v)),
                    Err(e) => Err(e),
                },
                _ => match l.power(r, rule) {
                    Ok(v) => Ok(Value::Single(v)),
                    Err(e) => Err(e),
                },
            },
            _ => Ok(Value::Simd(self.spread(rule).combined(rhs.spread(rule), op, rule))),
        }
    }

    /// Whether the value counts as true.
    pub open spec fn truth(self) -> bool {
        match self {
            Value::Simd(v) => v.truth(),
            Value::Single(v) => v.truth(),
        }
    }

    /// Equality. A vector and a single value are never equal.
    pub open spec fn same(self, rhs: Value<LANES>) -> bool {
        match (self, rhs) {
            (Value::Simd(l), Value::Simd(r)) => l.same(r),
            (Value::Single(l), Value::Single(r)) => l.same(r),
            _ => false,
        }
    }

    /// The order. Every vector is below every single value.
    pub open spec fn under(self, rhs: Value<LANES>) -> bool {
        match (self, rhs) {
            (Value::Simd(l), Value::Simd(r)) => l.under(r),
            (Value::Single(l), Value::Single(r)) => l.under(r),
            (Value::Simd(_), Value::Single(_)) => true,
            (Value::Single(_), Value::Simd(_)) => false,
        }
    }

    /// The value as a vector.
    pub fn as_simd<U: Fn(FloatOp) -> u64>(&self, unit: &U) -> (r: Simd<LANES>)
        requires
            is_float_unit(unit),
        ensures
            forall|rule: spec_fn(FloatOp) -> u64|
                works_by(unit, rule) ==> r == self.spread(rule),
    {
        match self {
            Value::Simd(v) => *v,
            Value::Single(v) => Simd::splat(v.as_float(unit)),
        }
    }

    /// Turns a single value into a vector that holds it in every lane.
    pub fn to_simd<U: Fn(FloatOp) -> u64>(&mut self, unit: &U)
        requires
            is_float_unit(unit),
        ensures
            forall|rule: spec_fn(FloatOp) -> u64|
                works_by(unit, rule) ==> *final(self) == Value::Simd(old(self).spread(rule)),
    {
        *self = Value::Simd(self.as_simd(unit));
    }

    /// The sum of two values.
    pub fn add<U: Fn(FloatOp) -> u64>(self, rhs: Value<LANES>, unit: &U) -> (r: Value<LANES>)
        requires
            is_float_unit(unit),
        ensures
            forall|rule: spec_fn(FloatOp) -> u64|
                works_by(unit, rule) ==> Ok::<Value<LANES>, Error>(r) ==
                    self.arithmetic(rhs, Operator::Add, rule),
    {
        match (self, rhs) {
            (Value::Single(l), Value::Single(r)) => Value::Single(l.add(r, unit)),
            _ => Value::Simd(self.as_simd(unit).add(rhs.as_simd(unit), unit)),
        }
    }

    /// The difference of two values.
    pub fn sub<U: Fn(FloatOp) -> u64>(self, rhs: Value<LANES>, unit: &U) -> (r: Value<LANES>)
        requires
            is_float_unit(unit),
        ensures
            forall|rule: spec_fn(FloatOp) -> u64|
                works_by(unit, rule) ==> Ok::<Value<LANES>, Error>(r) ==
                    self.arithmetic(rhs, Operator::Sub, rule),
    {
        match (self, rhs) {
            (Value::Single(l), Value::Single(r)) => Value::Single(l.sub(r, unit)),
            _ => Value::Simd(self.as_simd(unit).sub(rhs.as_simd(unit), unit)),
        }
    }

    /// The product of two values.
    pub fn mul<U: Fn(FloatOp) -> u64>(self, rhs: Value<LANES>, unit: &U) -> (r: Value<LANES>)
        requires
            is_float_unit(unit),
        ensures
            forall|rule: spec_fn(FloatOp) -> u64|
                works_by(unit, rule) ==> Ok::<Value<LANES>, Error>(r) ==
                    self.arithmetic(rhs, Operator::Mul, rule),
    {
        match (self, rhs) {
            (Value::Single(l), Value::Single(r)) => Value::Single(l.mul(r, unit)),
            _ => Value::Simd(self.as_simd(unit).mul(rhs.as_simd(unit), unit)),
        }
    }

    /// The quotient of two values.
    pub fn div<U: Fn(FloatOp) -> u64>(self, rhs: Value<LANES>, unit: &U) -> (r: Result<
        Value<LANES>,
        Error,
    >)
        requires
            is_float_unit(unit),
        ensures
            forall|rule: spec_fn(FloatOp) -> u64|
                works_by(unit, rule) ==> r == self.arithmetic(rhs, Operator::Div, rule),
    {
        match (self, rhs) {
            (Value::Single(l), Value::Single(r)) => match l.div(r, unit) {
                Ok(v) => Ok(Value::Single(v)),
                Err(e) => Err(e),
            },
            _ => Ok(Value::Simd(self.as_simd(unit).div(rhs.as_simd(unit), unit))),
        }
    }

    /// The remainder of two values.
    pub fn rem<U: Fn(FloatOp) -> u64>(self, rhs: Value<LANES>, unit: &U) -> (r: Result<
        Value<LANES>,
        Error,
    >)
        requires
            is_float_unit(unit),
        ensures
            forall|rule: spec_fn(FloatOp) -> u64|
                works_by(unit, rule) ==> r == self.arithmetic(rhs, Operator::Mod, rule),
    {
        match (self, rhs) {
            (Value::Single(l), Value::Single(r)) => match l.rem(r, unit) {
                Ok(v) => Ok(Value::Single(v)),
                Err(e) => Err(e),
            },
            _ => Ok(Value::Simd(self.as_simd(unit).rem(rhs.as_simd(unit), unit))),
        }
    }

    /// The power of two values.
    pub fn pow<U: Fn(FloatOp) -> u64>(self, rhs: Value<LANES>, unit: &U) -> (r: Result<
        Value<LANES>,
        Error,
    >)
        requires
            is_float_unit(unit),
        ensures
            forall|rule: spec_fn(FloatOp) -> u64|
                works_by(unit, rule) ==> r == self.arithmetic(rhs, Operator::Pow, rule),
    {
        match (self, rhs) {
            (Value::Single(l), Value::Single(r)) => match l.pow(r, unit) {
                Ok(v) => Ok(Value::Single(v)),
                Err(e) => Err(e),
            },
            _ => Ok(Value::Simd(self.as_simd(unit).pow(rhs.as_simd(unit), unit))),
        }
    }

    /// Whether the value counts as true.
    pub fn as_bool(&self) -> (r: bool)
        ensures
            r == self.truth(),
    {
        match self {
            Value::Simd(v) => v.as_bool(),
            Value::Single(v) => v.as_bool(),
        }
    }

    /// Whether two values are equal.
    pub fn is_same(&self, rhs: &Value<LANES>) -> (r: bool)
        ensures
            r == self.same(*rhs),
    {
        match (self, rhs) {
            (Value::Simd(l), Value::Simd(r)) => l.is_same(r),
            (Value::Single(l), Value::Single(r)) => l.is_same(r),
            _ => false,
        }
    }

    /// Whether the value comes before the other in the order of values.
    pub fn is_under(&self, rhs: &Value<LANES>) -> (r: bool)
        ensures
            r == self.under(*rhs),
    {
        match (self, rhs) {
            (Value::Simd(l), Value::Simd(r)) => l.is_under(r),
            (Value::Single(l), Value::Single(r)) => l.is_under(r),
            (Value::Simd(_), Value::Single(_)) => true,
            (Value::Single(_), Value::Simd(_)) => false,
        }
    }
}

} // verus!
