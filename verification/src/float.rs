//! Floating-point numbers as bit patterns, and the unit that works on them.
//!
//! The library does no floating-point arithmetic of its own. A number is
//! carried as its IEEE 754 binary64 bit pattern; what is decided on the bit
//! pattern alone (its sign, whether it is zero or a NaN, its order among the
//! numbers) is decided here, and every other operation is asked of a unit
//! that the caller hands in as a function. What the library returns is
//! stated for every rule that the unit works by.
use vstd::prelude::*;

verus! {

/// A request to the floating-point unit.
///
/// A floating-point number is held as its IEEE 754 binary64 bit pattern in a
/// `u64`. The unit answers every request with a `u64`: the bit pattern of the
/// result, or for [`FloatOp::ToInt`] the two's complement of the integer.
#[derive(Debug, Clone, Copy, PartialEq, Eq, Structural)]
pub enum FloatOp {
    /// The sum of two numbers.
    Add(u64, u64),
    /// The first number less the second.
    Sub(u64, u64),
    /// The product of two numbers.
    Mul(u64, u64),
    /// The first number divided by the second.
    Div(u64, u64),
    /// What is left of the first number when it is divided by the second.
    Rem(u64, u64),
    /// The first number raised to the second.
    Powf(u64, u64),
    /// A number raised to an integer.
    Powi(u64, i32),
    /// The number nearest to an integer.
    FromInt(i64),
    /// The integer part of a number, held to the range of `i64`.
    ToInt(u64),
    /// The square root of a number.
    Sqrt(u64),
    /// The logarithm of the first number to the base of the second.
    Log(u64, u64),
}

/// The bit that holds the sign of a number.
pub const SIGN_BIT: u64 = 0x8000_0000_0000_0000;

/// The bit pattern of positive infinity. Every larger magnitude is a NaN.
pub const INFINITY: u64 = 0x7ff0_0000_0000_0000;

/// A floating-point unit takes every request.
pub open spec fn is_float_unit<U: Fn(FloatOp) -> u64>(unit: &U) -> bool {
    forall|op: FloatOp| call_requires(*unit, (op,))
}

/// The unit works by the rule: it answers each request as the rule says.
pub open spec fn works_by<U: Fn(FloatOp) -> u64>(unit: &U, rule: spec_fn(FloatOp) -> u64) -> bool {
    forall|op: FloatOp, r: u64| call_ensures(*unit, (op,), r) ==> r == rule(op)
}

/// A parser of floating-point literals takes every text.
pub open spec fn is_float_parser<P: Fn(&[u8]) -> Option<u64>>(parser: &P) -> bool {
    forall|s: &[u8]| call_requires(*parser, (s,))
}

/// The parser reads by the rule: it makes of each text what the rule says,
/// the bit pattern of the number, or nothing where the text is no number.
pub open spec fn reads_by<P: Fn(&[u8]) -> Option<u64>>(
    parser: &P,
    reading: spec_fn(Seq<u8>) -> Option<u64>,
) -> bool {
    forall|s: &[u8], r: Option<u64>| call_ensures(*parser, (s,), r) ==> r == reading(s@)
}

/// Hands a request to the unit.
pub fn ask<U: Fn(FloatOp) -> u64>(unit: &U, op: FloatOp) -> (r: u64)
    requires
        is_float_unit(unit),
    ensures
        forall|rule: spec_fn(FloatOp) -> u64| works_by(unit, rule) ==> r == rule(op),
{
    unit(op)
}

/// Hands a text to the parser.
pub fn parse<P: Fn(&[u8]) -> Option<u64>>(parser: &P, text: &[u8]) -> (r: Option<u64>)
    requires
        is_float_parser(parser),
    ensures
        forall|reading: spec_fn(Seq<u8>) -> Option<u64>|
            reads_by(parser, reading) ==> r == reading(text@),
{
    parser(text)
}

/// The bit pattern without its sign.
pub open spec fn magnitude(bits: u64) -> u64 {
    if bits >= SIGN_BIT {
        (bits - SIGN_BIT) as u64
    } else {
        bits
    }
}

/// Whether the bit pattern is no number.
pub open spec fn is_nan(bits: u64) -> bool {
    magnitude(bits) > INFINITY
}

/// Whether the bit pattern is one of the two zeros.
pub open spec fn is_zero(bits: u64) -> bool {
    magnitude(bits) == 0
}

/// The place of a number on the number line: of two numbers the smaller has
/// the smaller place, and the two zeros share one.
pub open spec fn place(bits: u64) -> int {
    if bits >= SIGN_BIT {
        -(magnitude(bits) as int)
    } else {
        bits as int
    }
}

/// Equality of numbers: a NaN equals nothing, and the two zeros are equal.
pub open spec fn same_number(a: u64, b: u64) -> bool {
    !is_nan(a) && !is_nan(b) && place(a) == place(b)
}

/// The order of numbers: a NaN is below nothing and nothing is below it.
pub open spec fn below(a: u64, b: u64) -> bool {
    !is_nan(a) && !is_nan(b) && place(a) < place(b)
}

/// The bit pattern without its sign.
pub fn abs(bits: u64) -> (r: u64)
    ensures
        r == magnitude(bits),
{
    if bits >= SIGN_BIT {
        bits - SIGN_BIT
    } else {
        bits
    }
}

/// Whether the bit pattern is no number.
pub fn nan(bits: u64) -> (r: bool)
    ensures
        r == is_nan(bits),
{
    abs(bits) > INFINITY
}

/// Whether the bit pattern is one of the two zeros.
pub fn zero(bits: u64) -> (r: bool)
    ensures
        r == is_zero(bits),
{
    abs(bits) == 0
}

/// Whether two bit patterns are the same number.
pub fn equal(a: u64, b: u64) -> (r: bool)
    ensures
        r == same_number(a, b),
{
    if nan(a) || nan(b) {
        false
    } else if a >= SIGN_BIT && b >= SIGN_BIT {
        a == b
    } else if a >= SIGN_BIT {
        abs(a) == 0 && b == 0
    } else if b >= SIGN_BIT {
        a == 0 && abs(b) == 0
    } else {
        a == b
    }
}

/// Whether the first number is below the second.
pub fn less(a: u64, b: u64) -> (r: bool)
    ensures
        r == below(a, b),
{
    if nan(a) || nan(b) {
        false
    } else if a >= SIGN_BIT && b >= SIGN_BIT {
        a > b
    } else if a >= SIGN_BIT {
        abs(a) > 0 || b > 0
    } else if b >= SIGN_BIT {
        false
    } else {
        a < b
    }
}

/// Numbers that are not NaN are ordered like the points of a line: of two
/// of them exactly one is below the other, or they are equal.
pub proof fn lemma_order_is_total(a: u64, b: u64)
    requires
        !is_nan(a),
        !is_nan(b),
    ensures
        below(a, b) || below(b, a) || same_number(a, b),
        !(below(a, b) && below(b, a)),
        !(below(a, b) && same_number(a, b)),
{
}

} // verus!
