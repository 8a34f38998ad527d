//! From a formula to its value.
pub mod alternation;
pub mod arguments;
pub mod enums;
pub mod expression;
pub mod folding;
pub mod function;
pub mod lexing;
pub mod linking;
pub mod node;
pub mod parse_element;
pub mod promotion;
pub mod settling;
pub mod token;
pub mod value;
pub mod variables;
pub mod walking;
