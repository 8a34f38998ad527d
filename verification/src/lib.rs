//! # Simdeval
//!
//! `simdeval` compiles a short formula once and evaluates it many times
//! against changing variable values.
//!
//! A formula is lexed into a flat array of elements, the elements are linked
//! into a tree by array index, constant sub-trees can be folded in place, and
//! the tree is walked to produce a [`evaluate::value::Value`].
//!
//! Floating-point values are carried as IEEE 754 binary64 bit patterns. The
//! library decides which operation applies to which operands; the arithmetic
//! on the bit patterns itself is done by a floating-point unit that the host
//! hands in as a function.
pub mod error;
pub mod float;
pub mod stack;
pub mod evaluate;

pub use error::Error;
pub use evaluate::expression::Expression;
pub use evaluate::function::library::Std;
