//! The standard library of functions.
use super::{bytes_equal, texts, Function};
use crate::error::Error;
use crate::evaluate::value::single::Single;
use crate::evaluate::value::Value;
use crate::float::{ask, is_float_unit, magnitude, works_by, FloatOp};
use vstd::prelude::*;
use vstd::string::StringSliceAdditionalSpecFns;

verus! {

/// The standard library of functions, under the namespace `std`.
#[derive(Debug, Clone, Copy, PartialEq, Eq)]
pub enum Std<const LANES: usize> {
    /// `sqrt(x)`: the square root, a floating-point number.
    Sqrt,
    /// `print(x)`: shows a value to the user and returns the integer zero.
    /// The library only says that the value is to be shown; showing it is
    /// left to the host.
    Print,
    /// `log(x, base)`: the logarithm, a floating-point number.
    Log,
    /// `abs(x)`: the value without its sign.
    Abs,
}

/// The bytes of `std`.
pub open spec fn namespace_text() -> Seq<u8> {
    "std".spec_bytes()
}

/// The bytes of `sqrt`.
pub open spec fn sqrt_text() -> Seq<u8> {
    "sqrt".spec_bytes()
}

/// The bytes of `print`.
pub open spec fn print_text() -> Seq<u8> {
    "print".spec_bytes()
}

/// The bytes of `log`.
pub open spec fn log_text() -> Seq<u8> {
    "log".spec_bytes()
}

/// The bytes of `abs`.
pub open spec fn abs_text() -> Seq<u8> {
    "abs".spec_bytes()
}

/// The function of the standard library that a name stands for.
pub open spec fn named<const LANES: usize>(identifier: Seq<u8>) -> Result<Std<LANES>, Error> {
    if identifier == sqrt_text() {
        Ok(Std::Sqrt)
    } else if identifier == print_text() {
        Ok(Std::Print)
    } else if identifier == log_text() {
        Ok(Std::Log)
    } else if identifier == abs_text() {
        Ok(Std::Abs)
    } else {
        Err(Error::NoIdentifierMatch)
    }
}

/// The function that a path and a name stand for: every segment of the path
/// has to be `std`.
pub open spec fn resolve_from<const LANES: usize>(
    namespaces: Seq<Seq<u8>>,
    from: int,
    identifier: Seq<u8>,
) -> Result<Std<LANES>, Error>
    decreases namespaces.len() - from,
{
    if from >= namespaces.len() {
        named(identifier)
    } else if namespaces[from] == namespace_text() {
        resolve_from(namespaces, from + 1, identifier)
    } else {
        Err(Error::InvalidNamespace)
    }
}

impl<const LANES: usize> Std<LANES> {
    /// How many arguments the function takes.
    pub open spec fn arity(self) -> nat {
        match self {
            Std::Log => 2,
            _ => 1,
        }
    }

    /// The square root of a single value. That of a boolean is the boolean
    /// as a number.
    pub open spec fn sqrt_of(v: Single, rule: spec_fn(FloatOp) -> u64) -> Single {
        match v {
            Single::Bool(_) => Single::Float(v.number(rule)),
            _ => Single::Float(rule(FloatOp::Sqrt(v.number(rule)))),
        }
    }

    /// A single value without its sign. The smallest integer has none.
    pub open spec fn abs_of(v: Single) -> Result<Single, Error> {
        match v {
            Single::Int(i) => if i == i64::MIN {
                Err(Error::ArithmeticOverflow)
            } else if i < 0 {
                Ok(Single::Int((-i) as i64))
            } else {
                Ok(v)
            },
            Single::Float(f) => Ok(Single::Float(magnitude(f))),
            Single::Bool(_) => Ok(v),
        }
    }

    /// What a function returns for single values, as many as it takes.
    pub open spec fn result_of(self, args: Seq<Single>, rule: spec_fn(FloatOp) -> u64) -> Result<
        Single,
        Error,
    >
        recommends
            args.len() == self.arity(),
    {
        match self {
            Std::Sqrt => Ok(Self::sqrt_of(args[0], rule)),
            Std::Print => Ok(Single::Int(0)),
            Std::Log => Ok(
                Single::Float(
                    rule(FloatOp::Log(args[0].number(rule), args[1].number(rule))),
                ),
            ),
            Std::Abs => Self::abs_of(args[0]),
        }
    }
}

/// The single values that the arguments hold, if they are all single.
pub open spec fn singles<const LANES: usize>(args: Seq<Value<LANES>>) -> Option<Seq<Single>> {
    if forall|i: int| 0 <= i < args.len() ==> #[trigger] args[i] is Single {
        Some(Seq::new(args.len(), |i: int| args[i]->Single_0))
    } else {
        None
    }
}

fn sqrt<U: Fn(FloatOp) -> u64, const LANES: usize>(v: Single, unit: &U) -> (r: Single)
    requires
        is_float_unit(unit),
    ensures
        forall|rule: spec_fn(FloatOp) -> u64|
            works_by(unit, rule) ==> r == Std::<LANES>::sqrt_of(v, rule),
{
    match v {
        Single::Bool(_) => Single::Float(v.as_float(unit)),
        _ => Single::Float(ask(unit, FloatOp::Sqrt(v.as_float(unit)))),
    }
}

fn log<U: Fn(FloatOp) -> u64>(num: Single, base: Single, unit: &U) -> (r: Single)
    requires
        is_float_unit(unit),
    ensures
        forall|rule: spec_fn(FloatOp) -> u64|
            works_by(unit, rule) ==> r ==
                Single::Float(rule(FloatOp::Log(num.number(rule), base.number(rule)))),
{
    let num = num.as_float(unit);
    let base = base.as_float(unit);
    Single::Float(ask(unit, FloatOp::Log(num, base)))
}

fn abs<const LANES: usize>(v: Single) -> (r: Result<Single, Error>)
    ensures
        r == Std::<LANES>::abs_of(v),
{
    match v {
        Single::Int(i) => {
            if i == i64::MIN {
                Err(Error::ArithmeticOverflow)
            } else if i < 0 {
                Ok(Single::Int(-i))
            } else {
                Ok(v)
            }
        },
        Single::Float(f) => Ok(Single::Float(crate::float::abs(f))),
        Single::Bool(_) => Ok(v),
    }
}

impl<const LANES: usize> Function<LANES> for Std<LANES> {
    const NAMESPACE: &'static str = "std";

    /// `log` takes two arguments, and no function takes more.
    open spec fn capacity() -> nat {
        2
    }

    open spec fn resolved(namespaces: Seq<Seq<u8>>, identifier: Seq<u8>) -> Result<Self, Error> {
        resolve_from(namespaces, 0, identifier)
    }

    /// A function of the standard library takes single values only: a vector
    /// among the arguments is an `InvalidArgs`, as is a wrong number of
    /// arguments.
    open spec fn outcome(&self, args: Seq<Value<LANES>>, rule: spec_fn(FloatOp) -> u64) -> Result<
        Value<LANES>,
        Error,
    > {
        if args.len() != self.arity() {
            Err(Error::InvalidArgs)
        } else {
            match singles(args) {
                None => Err(Error::InvalidArgs),
                Some(values) => match self.result_of(values, rule) {
                    Ok(v) => Ok(Value::Single(v)),
                    Err(e) => Err(e),
                },
            }
        }
    }

    /// All but `print` are constant.
    open spec fn constant(&self) -> bool {
        !(self is Print)
    }

    fn max_args() -> (r: usize) {
        2
    }

    fn from_string(namespaces: &[&[u8]], identifier: &[u8]) -> (r: Result<Self, Error>) {
        let ghost path = texts(namespaces@);
        let std_name = Self::NAMESPACE.as_bytes();
        let mut i: usize = 0;
        while i < namespaces.len()
            invariant
                i <= namespaces@.len(),
                path == texts(namespaces@),
                std_name@ == namespace_text(),
                resolve_from::<LANES>(path, 0, identifier@) == resolve_from::<LANES>(
                    path,
                    i as int,
                    identifier@,
                ),
            decreases namespaces@.len() - i,
        {
            if !bytes_equal(namespaces[i], std_name) {
                return Err(Error::InvalidNamespace);
            }
            i += 1;
        }
        if bytes_equal(identifier, "sqrt".as_bytes()) {
            Ok(Std::Sqrt)
        } else if bytes_equal(identifier, "print".as_bytes()) {
            Ok(Std::Print)
        } else if bytes_equal(identifier, "log".as_bytes()) {
            Ok(Std::Log)
        } else if bytes_equal(identifier, "abs".as_bytes()) {
            Ok(Std::Abs)
        } else {
            Err(Error::NoIdentifierMatch)
        }
    }

    fn call<U: Fn(FloatOp) -> u64>(&self, args: &[Value<LANES>], unit: &U) -> (r: Result<
        Value<LANES>,
        Error,
    >) {
        match self {
            Std::Log => {
                if args.len() != 2 {
                    return Err(Error::InvalidArgs);
                }
                match (args[0], args[1]) {
                    (Value::Single(num), Value::Single(base)) => {
                        assert(singles(args@).unwrap() =~= seq![num, base]);
                        Ok(Value::Single(log(num, base, unit)))
                    },
                    _ => {
                        assert(!(args@[0] is Single) || !(args@[1] is Single));
                        Err(Error::InvalidArgs)
                    },
                }
            },
            _ => {
                if args.len() != 1 {
                    return Err(Error::InvalidArgs);
                }
                match args[0] {
                    Value::Single(v) => {
                        assert(singles(args@).unwrap() =~= seq![v]);
                        match self {
                            Std::Sqrt => Ok(Value::Single(sqrt::<U, LANES>(v, unit))),
                            Std::Abs => match abs::<LANES>(v) {
                                Ok(a) => Ok(Value::Single(a)),
                                Err(e) => Err(e),
                            },
                            _ => Ok(Value::Single(Single::Int(0))),
                        }
                    },
                    _ => {
                        assert(!(args@[0] is Single));
                        Err(Error::InvalidArgs)
                    },
                }
            },
        }
    }

    fn is_const(&self) -> (r: bool) {
        match self {
            Std::Print => false,
            _ => true,
        }
    }
}

/// A function of the standard library fails for the wrong arguments, or
/// where an integer has no result, and for nothing else.
pub proof fn lemma_std_errors<const LANES: usize>(
    function: Std<LANES>,
    args: Seq<Value<LANES>>,
    rule: spec_fn(FloatOp) -> u64,
)
    ensures
        match function.outcome(args, rule) {
            Ok(value) => value is Single,
            Err(e) => e ==
                Error::InvalidArgs || (e == Error::ArithmeticOverflow && function is Abs),
        },
{
}

} // verus!
