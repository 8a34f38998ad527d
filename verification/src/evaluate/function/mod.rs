//! Libraries of functions that a formula can call.
use crate::error::Error;
use crate::evaluate::value::Value;
use crate::float::{is_float_unit, works_by, FloatOp};
use vstd::prelude::*;

pub mod library;

verus! {

/// The texts that a list of byte slices holds.
pub open spec fn texts(names: Seq<&[u8]>) -> Seq<Seq<u8>> {
    Seq::new(names.len(), |i: int| names[i]@)
}

/// A library of functions that a formula can call. A value of the type is
/// one function of the library.
pub trait Function<const LANES: usize>: Sized + Copy {
    /// The name of the library's namespace.
    const NAMESPACE: &'static str;

    /// The largest number of arguments that a function of the library takes.
    /// No call is given more.
    open spec fn capacity() -> nat {
        arbitrary()
    }

    /// The function that a path of namespaces and a name stand for.
    ///
    /// The path is read from its front. A segment is the namespace of this
    /// library, and the rest of the path is then read by this library again,
    /// or it is the namespace of a library that this one holds, and the rest
    /// is read by that one; any other segment is an `InvalidNamespace`. At
    /// the end of the path the name is one of this library's functions, or
    /// there is `NoIdentifierMatch`.
    open spec fn resolved(namespaces: Seq<Seq<u8>>, identifier: Seq<u8>) -> Result<Self, Error> {
        arbitrary()
    }

    /// What the function returns for the arguments. A number of arguments
    /// that the function does not take is an `InvalidArgs`.
    open spec fn outcome(&self, args: Seq<Value<LANES>>, rule: spec_fn(FloatOp) -> u64) -> Result<
        Value<LANES>,
        Error,
    > {
        arbitrary()
    }

    /// Whether the function returns the same for the same arguments and
    /// does nothing else, so that a call with known arguments may be
    /// replaced by what it returns.
    open spec fn constant(&self) -> bool {
        true
    }

    /// The largest number of arguments that a function of the library takes.
    fn max_args() -> (r: usize)
        ensures
            r == Self::capacity(),
    ;

    fn from_string(namespaces: &[&[u8]], identifier: &[u8]) -> (r: Result<Self, Error>)
        ensures
            r == Self::resolved(texts(namespaces@), identifier@),
    ;

    fn call<U: Fn(FloatOp) -> u64>(&self, args: &[Value<LANES>], unit: &U) -> (r: Result<
        Value<LANES>,
        Error,
    >)
        requires
            is_float_unit(unit),
        ensures
            forall|rule: spec_fn(FloatOp) -> u64|
                works_by(unit, rule) ==> r == self.outcome(args@, rule),
    ;

    fn is_const(&self) -> (r: bool)
        ensures
            r == self.constant(),
    ;
}

/// Whether two texts are the same.
pub fn bytes_equal(a: &[u8], b: &[u8]) -> (r: bool)
    ensures
        r == (a@ == b@),
{
    if a.len() != b.len() {
        return false;
    }
    let mut i: usize = 0;
    while i < a.len()
        invariant
            i <= a@.len(),
            a@.len() == b@.len(),
            forall|k: int| 0 <= k < i ==> a@[k] == b@[k],
        decreases a@.len() - i,
    {
        if a[i] != b[i] {
            return false;
        }
        i += 1;
    }
    assert(a@ =~= b@);
    true
}

} // verus!
