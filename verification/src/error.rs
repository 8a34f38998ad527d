//! The errors of the library.
use vstd::prelude::*;

verus! {

/// Everything that can go wrong while compiling or evaluating a formula.
///
/// Every failure is returned to the caller; nothing in this library aborts.
#[derive(Debug, Clone, Copy, PartialEq, Eq, Structural)]
pub enum Error {
    /// The lexer met a byte that starts no token.
    UnknownCharacter(char),
    /// A token appeared where the token before it does not allow it.
    UnexpectedToken,
    /// The namespace was found, but it holds no function of that name.
    NoIdentifierMatch,
    /// The text of a literal is not a value of the literal's kind.
    InvalidToken,
    /// A namespace segment names no known library.
    InvalidNamespace,
    /// A function was called with the wrong number of arguments.
    InvalidArgs,
    /// A variable name or slot that the formula does not have.
    InvalidVariable,
    /// The expression has not been compiled yet.
    NotCompiled,
    /// The expression has been compiled already.
    AlreadyCompiled,
    /// A link of the tree does not lead to a node.
    InvalidIndex,
    /// The source text is empty.
    EmptyExpression,
    /// An integer operation has no result in 64 bits, or no result at all.
    ArithmeticOverflow,
    /// A bounded buffer was asked to hold more than its capacity.
    CapacityExceeded,
}

} // verus!
