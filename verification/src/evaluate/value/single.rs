//! Single values and their arithmetic.
use crate::error::Error;
use crate::float::{ask, below, is_float_unit, is_zero, same_number, works_by, FloatOp};
use vstd::prelude::*;

verus! {

/// One value: an integer, a floating-point number by its bit pattern, or a
/// boolean.
#[derive(Debug, Clone, Copy, PartialEq, Eq, Structural)]
pub enum Single {
    Int(i64),
    Float(u64),
    Bool(bool),
}

/// `base` multiplied by itself `exp` times.
pub open spec fn int_power(base: int, exp: nat) -> int
    decreases exp,
{
    if exp == 0 {
        1
    } else {
        base * int_power(base, (exp - 1) as nat)
    }
}

/// Whether an integer has no place in 64 bits.
pub open spec fn out_of_range(v: int) -> bool {
    v < i64::MIN || v > i64::MAX
}

proof fn lemma_power_of_minus_one(exp: nat)
    ensures
        int_power(-1, exp) == (if exp % 2 == 0 {
            1int
        } else {
            -1int
        }),
    decreases exp,
{
    if exp > 0 {
        lemma_power_of_minus_one((exp - 1) as nat);
    }
}

proof fn lemma_power_of_one(exp: nat)
    ensures
        int_power(1, exp) == 1,
    decreases exp,
{
    if exp > 0 {
        lemma_power_of_one((exp - 1) as nat);
    }
}

proof fn lemma_product_stays_out(v: int, base: int)
    requires
        out_of_range(v),
        base <= -2 || base >= 2,
    ensures
        out_of_range(base * v),
{
    assert(out_of_range(base * v)) by (nonlinear_arith)
        requires
            v < -0x8000_0000_0000_0000 || v > 0x7fff_ffff_ffff_ffff,
            base <= -2 || base >= 2,
            out_of_range(base * v) <==> (base * v < -0x8000_0000_0000_0000 || base * v
                > 0x7fff_ffff_ffff_ffff),
    ;
}

proof fn lemma_power_stays_out(base: int, from: nat, to: nat)
    requires
        out_of_range(int_power(base, from)),
        base <= -2 || base >= 2,
        from <= to,
    ensures
        out_of_range(int_power(base, to)),
    decreases to - from,
{
    if from < to {
        lemma_power_stays_out(base, from, (to - 1) as nat);
        lemma_product_stays_out(int_power(base, (to - 1) as nat), base);
    }
}

/// The power of two integers, where it has a place in 64 bits.
pub fn checked_power(base: i64, exp: u64) -> (r: Option<i64>)
    ensures
        out_of_range(int_power(base as int, exp as nat)) ==> r.is_none(),
        !out_of_range(int_power(base as int, exp as nat)) ==> r == Some(
            int_power(base as int, exp as nat) as i64,
        ),
{
    if exp == 0 {
        return Some(1);
    }
    if base == 0 {
        return Some(0);
    }
    if base == 1 {
        proof {
            lemma_power_of_one(exp as nat);
        }
        return Some(1);
    }
    if base == -1 {
        proof {
            lemma_power_of_minus_one(exp as nat);
        }
        return Some(
            if exp % 2 == 0 {
                1
            } else {
                -1
            },
        );
    }
    let mut acc: i64 = 1;
    let mut i: u64 = 0;
    while i < exp
        invariant
            0 <= i <= exp,
            base <= -2 || base >= 2,
            acc == int_power(base as int, i as nat),
        decreases exp - i,
    {
        assert(i64::MIN as int * i64::MIN as int <= i128::MAX) by (nonlinear_arith);
        assert(i128::MIN <= (base as int) * (acc as int) <= i128::MAX) by (nonlinear_arith)
            requires
                -0x8000_0000_0000_0000 <= base <= 0x7fff_ffff_ffff_ffff,
                -0x8000_0000_0000_0000 <= acc <= 0x7fff_ffff_ffff_ffff,
                i128::MIN == -0x8000_0000_0000_0000_0000_0000_0000_0000,
                i128::MAX == 0x7fff_ffff_ffff_ffff_ffff_ffff_ffff_ffff,
        ;
        let wide: i128 = (base as i128) * (acc as i128);
        if wide < i64::MIN as i128 || wide > i64::MAX as i128 {
            proof {
                lemma_power_stays_out(base as int, (i + 1) as nat, exp as nat);
            }
            return None;
        }
        acc = wide as i64;
        i += 1;
    }
    Some(acc)
}

impl Single {
    /// Whether the value counts as true: a number does unless it is zero.
    pub open spec fn truth(self) -> bool {
        match self {
            Single::Int(v) => v != 0,
            Single::Float(v) => !is_zero(v),
            Single::Bool(v) => v,
        }
    }

    /// The integer that an integer or a boolean stands for.
    pub open spec fn count(self) -> i64
        recommends
            !(self is Float),
    {
        match self {
            Single::Int(v) => v,
            Single::Float(_) => 0,
            Single::Bool(v) => if v {
                1
            } else {
                0
            },
        }
    }

    /// The value as a floating-point number.
    pub open spec fn number(self, rule: spec_fn(FloatOp) -> u64) -> u64 {
        match self {
            Single::Float(v) => v,
            _ => rule(FloatOp::FromInt(self.count())),
        }
    }

    /// The value as an integer.
    pub open spec fn integer(self, rule: spec_fn(FloatOp) -> u64) -> i64 {
        match self {
            Single::Float(v) => rule(FloatOp::ToInt(v)) as i64,
            _ => self.count(),
        }
    }

    /// The sum: of integers and booleans an integer that wraps round, of
    /// anything and a floating-point number a floating-point number.
    pub open spec fn plus(self, rhs: Single, rule: spec_fn(FloatOp) -> u64) -> Single {
        if self is Float || rhs is Float {
            Single::Float(rule(FloatOp::Add(self.number(rule), rhs.number(rule))))
        } else {
            Single::Int(self.count().wrapping_add(rhs.count()))
        }
    }

    /// The difference, by the rules of the sum.
    pub open spec fn minus(self, rhs: Single, rule: spec_fn(FloatOp) -> u64) -> Single {
        if self is Float || rhs is Float {
            Single::Float(rule(FloatOp::Sub(self.number(rule), rhs.number(rule))))
        } else {
            Single::Int(self.count().wrapping_sub(rhs.count()))
        }
    }

    /// The product, by the rules of the sum.
    pub open spec fn times(self, rhs: Single, rule: spec_fn(FloatOp) -> u64) -> Single {
        if self is Float || rhs is Float {
            Single::Float(rule(FloatOp::Mul(self.number(rule), rhs.number(rule))))
        } else {
            Single::Int(self.count().wrapping_mul(rhs.count()))
        }
    }

    /// The quotient. Of integers and booleans it is the integer quotient cut
    /// off towards zero, and there is none where the divisor is zero or the
    /// quotient has no place in 64 bits.
    pub open spec fn quotient(self, rhs: Single, rule: spec_fn(FloatOp) -> u64) -> Result<
        Single,
        Error,
    > {
        if self is Float || rhs is Float {
            Ok(Single::Float(rule(FloatOp::Div(self.number(rule), rhs.number(rule)))))
        } else {
            match self.count().checked_div(rhs.count()) {
                Some(v) => Ok(Single::Int(v)),
                None => Err(Error::ArithmeticOverflow),
            }
        }
    }

    /// The remainder. Of integers and booleans it has the sign of the
    /// dividend, and there is none where the quotient has none.
    pub open spec fn remainder(self, rhs: Single, rule: spec_fn(FloatOp) -> u64) -> Result<
        Single,
        Error,
    > {
        if self is Float || rhs is Float {
            Ok(Single::Float(rule(FloatOp::Rem(self.number(rule), rhs.number(rule)))))
        } else {
            match self.count().checked_rem(rhs.count()) {
                Some(v) => Ok(Single::Int(v)),
                None => Err(Error::ArithmeticOverflow),
            }
        }
    }

    /// The power.
    ///
    /// An integer raised to an integer that is not negative is an integer,
    /// and there is none where it has no place in 64 bits. Raised to a
    /// negative integer it is a floating-point number. A floating-point
    /// number raised to anything is a floating-point number. An integer
    /// exponent of a floating-point power has to have a place in 32 bits. A
    /// boolean raised to anything is itself.
    pub open spec fn power(self, rhs: Single, rule: spec_fn(FloatOp) -> u64) -> Result<
        Single,
        Error,
    > {
        match self {
            Single::Int(l) => match rhs {
                Single::Int(r) => if r >= 0 {
                    if out_of_range(int_power(l as int, r as nat)) {
                        Err(Error::ArithmeticOverflow)
                    } else {
                        Ok(Single::Int(int_power(l as int, r as nat) as i64))
                    }
                } else if r >= i32::MIN {
                    Ok(Single::Float(rule(FloatOp::Powi(self.number(rule), r as i32))))
                } else {
                    Err(Error::ArithmeticOverflow)
                },
                Single::Float(r) => Ok(
                    Single::Float(rule(FloatOp::Powf(self.number(rule), r))),
                ),
                Single::Bool(r) => Ok(
                    Single::Int(
                        if r {
                            l
                        } else {
                            1
                        },
                    ),
                ),
            },
            Single::Float(l) => match rhs {
                Single::Int(r) => if i32::MIN <= r <= i32::MAX {
                    Ok(Single::Float(rule(FloatOp::Powi(l, r as i32))))
                } else {
                    Err(Error::ArithmeticOverflow)
                },
                Single::Float(r) => Ok(Single::Float(rule(FloatOp::Powf(l, r)))),
                Single::Bool(r) => Ok(
                    Single::Float(
                        rule(FloatOp::Powi(
                                l,
                                if r {
                                    1
                                } else {
                                    0
                                },
                            ),
                        ),
                    ),
                ),
            },
            Single::Bool(l) => Ok(Single::Bool(l)),
        }
    }

    /// The place of a variant among the variants. A value of an earlier
    /// variant is below every value of a later one.
    pub open spec fn tag(self) -> int {
        match self {
            Single::Int(_) => 0,
            Single::Float(_) => 1,
            Single::Bool(_) => 2,
        }
    }

    /// Equality. Values of different variants are never equal: an integer is
    /// no floating-point number, whatever the two hold.
    pub open spec fn same(self, rhs: Single) -> bool {
        match (self, rhs) {
            (Single::Int(l), Single::Int(r)) => l == r,
            (Single::Float(l), Single::Float(r)) => same_number(l, r),
            (Single::Bool(l), Single::Bool(r)) => l == r,
            _ => false,
        }
    }

    /// The order. Values of one variant are ordered by what they hold, with
    /// `false` below `true`; values of different variants by their variants.
    pub open spec fn under(self, rhs: Single) -> bool {
        match (self, rhs) {
            (Single::Int(l), Single::Int(r)) => l < r,
            (Single::Float(l), Single::Float(r)) => below(l, r),
            (Single::Bool(l), Single::Bool(r)) => !l && r,
            _ => self.tag() < rhs.tag(),
        }
    }

    /// The value as a floating-point number.
    pub fn as_float<U: Fn(FloatOp) -> u64>(&self, unit: &U) -> (r: u64)
        requires
            is_float_unit(unit),
        ensures
            forall|rule: spec_fn(FloatOp) -> u64|
                works_by(unit, rule) ==> r == self.number(rule),
    {
        match self {
            Single::Int(v) => ask(unit, FloatOp::FromInt(*v)),
            Single::Float(v) => *v,
            Single::Bool(v) => ask(
                unit,
                FloatOp::FromInt(
                    if *v {
                        1
                    } else {
                        0
                    },
                ),
            ),
        }
    }

    /// The value as an integer.
    pub fn as_int<U: Fn(FloatOp) -> u64>(&self, unit: &U) -> (r: i64)
        requires
            is_float_unit(unit),
        ensures
            forall|rule: spec_fn(FloatOp) -> u64|
                works_by(unit, rule) ==> r == self.integer(rule),
    {
        match self {
            Single::Int(v) => *v,
            Single::Float(v) => {
                let word = ask(unit, FloatOp::ToInt(*v));
                #[verifier::truncate]
                (word as i64)
            },
            Single::Bool(v) => if *v {
                1
            } else {
                0
            },
        }
    }

    /// Whether the value counts as true.
    pub fn as_bool(&self) -> (r: bool)
        ensures
            r == self.truth(),
    {
        match self {
            Single::Int(v) => *v != 0,
            Single::Float(v) => !crate::float::zero(*v),
            Single::Bool(v) => *v,
        }
    }

    /// Turns the value into a floating-point number.
    pub fn to_float<U: Fn(FloatOp) -> u64>(&mut self, unit: &U)
        requires
            is_float_unit(unit),
        ensures
            forall|rule: spec_fn(FloatOp) -> u64|
                works_by(unit, rule) ==> *final(self) == Single::Float(old(self).number(rule)),
    {
        *self = Single::Float(self.as_float(unit));
    }

    /// Turns the value into an integer.
    pub fn to_int<U: Fn(FloatOp) -> u64>(&mut self, unit: &U)
        requires
            is_float_unit(unit),
        ensures
            forall|rule: spec_fn(FloatOp) -> u64|
                works_by(unit, rule) ==> *final(self) == Single::Int(old(self).integer(rule)),
    {
        *self = Single::Int(self.as_int(unit));
    }

    /// Turns the value into a boolean.
    pub fn to_bool(&mut self)
        ensures
            *final(self) == Single::Bool(old(self).truth()),
    {
        *self = Single::Bool(self.as_bool());
    }

    fn is_float(&self) -> (r: bool)
        ensures
            r == (self is Float),
    {
        match self {
            Single::Float(_) => true,
            _ => false,
        }
    }

    fn as_count(&self) -> (r: i64)
        ensures
            r == self.count(),
    {
        match self {
            Single::Int(v) => *v,
            Single::Float(_) => 0,
            Single::Bool(v) => if *v {
                1
            } else {
                0
            },
        }
    }

    /// The sum of two values.
    pub fn add<U: Fn(FloatOp) -> u64>(self, rhs: Single, unit: &U) -> (r: Single)
        requires
            is_float_unit(unit),
        ensures
            forall|rule: spec_fn(FloatOp) -> u64|
                works_by(unit, rule) ==> r == self.plus(rhs, rule),
    {
        if self.is_float() || rhs.is_float() {
            Single::Float(ask(unit, FloatOp::Add(self.as_float(unit), rhs.as_float(unit))))
        } else {
            Single::Int(self.as_count().wrapping_add(rhs.as_count()))
        }
    }

    /// The difference of two values.
    pub fn sub<U: Fn(FloatOp) -> u64>(self, rhs: Single, unit: &U) -> (r: Single)
        requires
            is_float_unit(unit),
        ensures
            forall|rule: spec_fn(FloatOp) -> u64|
                works_by(unit, rule) ==> r == self.minus(rhs, rule),
    {
        if self.is_float() || rhs.is_float() {
            Single::Float(ask(unit, FloatOp::Sub(self.as_float(unit), rhs.as_float(unit))))
        } else {
            Single::Int(self.as_count().wrapping_sub(rhs.as_count()))
        }
    }

    /// The product of two values.
    pub fn mul<U: Fn(FloatOp) -> u64>(self, rhs: Single, unit: &U) -> (r: Single)
        requires
            is_float_unit(unit),
        ensures
            forall|rule: spec_fn(FloatOp) -> u64|
                works_by(unit, rule) ==> r == self.times(rhs, rule),
    {
        if self.is_float() || rhs.is_float() {
            Single::Float(ask(unit, FloatOp::Mul(self.as_float(unit), rhs.as_float(unit))))
        } else {
            Single::Int(self.as_count().wrapping_mul(rhs.as_count()))
        }
    }

    /// The quotient of two values.
    pub fn div<U: Fn(FloatOp) -> u64>(self, rhs: Single, unit: &U) -> (r: Result<Single, Error>)
        requires
            is_float_unit(unit),
        ensures
            forall|rule: spec_fn(FloatOp) -> u64|
                works_by(unit, rule) ==> r == self.quotient(rhs, rule),
    {
        if self.is_float() || rhs.is_float() {
            Ok(Single::Float(ask(unit, FloatOp::Div(self.as_float(unit), rhs.as_float(unit)))))
        } else {
            match self.as_count().checked_div(rhs.as_count()) {
                Some(v) => Ok(Single::Int(v)),
                None => Err(Error::ArithmeticOverflow),
            }
        }
    }

    /// The remainder of two values.
    pub fn rem<U: Fn(FloatOp) -> u64>(self, rhs: Single, unit: &U) -> (r: Result<Single, Error>)
        requires
            is_float_unit(unit),
        ensures
            forall|rule: spec_fn(FloatOp) -> u64|
                works_by(unit, rule) ==> r == self.remainder(rhs, rule),
    {
        if self.is_float() || rhs.is_float() {
            Ok(Single::Float(ask(unit, FloatOp::Rem(self.as_float(unit), rhs.as_float(unit)))))
        } else {
            match self.as_count().checked_rem(rhs.as_count()) {
                Some(v) => Ok(Single::Int(v)),
                None => Err(Error::ArithmeticOverflow),
            }
        }
    }

    /// The power of two values.
    pub fn pow<U: Fn(FloatOp) -> u64>(self, rhs: Single, unit: &U) -> (r: Result<Single, Error>)
        requires
            is_float_unit(unit),
        ensures
            forall|rule: spec_fn(FloatOp) -> u64|
                works_by(unit, rule) ==> r == self.power(rhs, rule),
    {
        match self {
            Single::Int(l) => match rhs {
                Single::Int(r) => {
                    if r >= 0 {
                        match checked_power(l, r as u64) {
                            Some(v) => Ok(Single::Int(v)),
                            None => Err(Error::ArithmeticOverflow),
                        }
                    } else if r >= i32::MIN as i64 {
                        let base = self.as_float(unit);
                        Ok(Single::Float(ask(unit, FloatOp::Powi(base, r as i32))))
                    } else {
                        Err(Error::ArithmeticOverflow)
                    }
                },
                Single::Float(r) => {
                    let base = self.as_float(unit);
                    Ok(Single::Float(ask(unit, FloatOp::Powf(base, r))))
                },
                Single::Bool(r) => Ok(
                    Single::Int(
                        if r {
                            l
                        } else {
                            1
                        },
                    ),
                ),
            },
            Single::Float(l) => match rhs {
                Single::Int(r) => {
                    if i32::MIN as i64 <= r && r <= i32::MAX as i64 {
                        Ok(Single::Float(ask(unit, FloatOp::Powi(l, r as i32))))
                    } else {
                        Err(Error::ArithmeticOverflow)
                    }
                },
                Single::Float(r) => Ok(Single::Float(ask(unit, FloatOp::Powf(l, r)))),
                Single::Bool(r) => {
                    let exp: i32 = if r {
                        1
                    } else {
                        0
                    };
                    Ok(Single::Float(ask(unit, FloatOp::Powi(l, exp))))
                },
            },
            Single::Bool(l) => Ok(Single::Bool(l)),
        }
    }

    /// Whether both values count as true.
    pub fn and(self, rhs: Single) -> (r: Single)
        ensures
            r == Single::Bool(self.truth() && rhs.truth()),
    {
        Single::Bool(self.as_bool() && rhs.as_bool())
    }

    /// Whether one of the values counts as true.
    pub fn or(self, rhs: Single) -> (r: Single)
        ensures
            r == Single::Bool(self.truth() || rhs.truth()),
    {
        Single::Bool(self.as_bool() || rhs.as_bool())
    }

    /// Whether exactly one of the values counts as true.
    pub fn xor(self, rhs: Single) -> (r: Single)
        ensures
            r == Single::Bool(self.truth() != rhs.truth()),
    {
        Single::Bool(self.as_bool() != rhs.as_bool())
    }

    /// Whether two values are equal.
    pub fn is_same(&self, rhs: &Single) -> (r: bool)
        ensures
            r == self.same(*rhs),
    {
        match (*self, *rhs) {
            (Single::Int(l), Single::Int(r)) => l == r,
            (Single::Float(l), Single::Float(r)) => crate::float::equal(l, r),
            (Single::Bool(l), Single::Bool(r)) => l == r,
            _ => false,
        }
    }

    /// Whether the value comes before the other in the order of values.
    pub fn is_under(&self, rhs: &Single) -> (r: bool)
        ensures
            r == self.under(*rhs),
    {
        match (*self, *rhs) {
            (Single::Int(l), Single::Int(r)) => l < r,
            (Single::Float(l), Single::Float(r)) => crate::float::less(l, r),
            (Single::Bool(l), Single::Bool(r)) => !l && r,
            (Single::Int(_), _) => true,
            (Single::Float(_), Single::Bool(_)) => true,
            _ => false,
        }
    }
}

/// The sum of two booleans is an integer, never a boolean, and the sum of an
/// integer and a floating-point number is a floating-point number.
pub proof fn lemma_sum_coerces(a: bool, b: bool, i: i64, f: u64, rule: spec_fn(FloatOp) -> u64)
    ensures
        Single::Bool(a).plus(Single::Bool(b), rule) == Single::Int(
            (if a {
                1i64
            } else {
                0i64
            } + if b {
                1i64
            } else {
                0i64
            }) as i64,
        ),
        Single::Int(i).plus(Single::Float(f), rule) is Float,
        Single::Float(f).plus(Single::Int(i), rule) is Float,
        Single::Int(i).plus(Single::Bool(b), rule) is Int,
{
}

} // verus!
