//! The elements of the array that a formula is compiled into.
use super::enums::TokenKind;
use super::node::{Node, NodeView};
use super::token::Token;
use vstd::prelude::*;

verus! {

/// One place of the array that a formula is compiled into. It holds a token
/// until the token is made into a node; brackets, commas and namespaces stay
/// tokens.
#[derive(Debug, PartialEq, Eq)]
pub enum ParseElement<T, const LANES: usize> {
    Token(Token),
    Node(Node<T, LANES>),
}

/// What an element is.
pub enum ElementView<T, const LANES: usize> {
    Token(Token),
    Node(NodeView<T, LANES>),
}

impl<T, const LANES: usize> View for ParseElement<T, LANES> {
    type V = ElementView<T, LANES>;

    open spec fn view(&self) -> ElementView<T, LANES> {
        match self {
            ParseElement::Token(token) => ElementView::Token(*token),
            ParseElement::Node(node) => ElementView::Node(node@),
        }
    }
}

/// What the elements of an array are, place by place.
pub open spec fn views<T, const LANES: usize>(elements: Seq<ParseElement<T, LANES>>) -> Seq<
    ElementView<T, LANES>,
> {
    Seq::new(elements.len(), |i: int| elements[i]@)
}

impl<T, const LANES: usize> ElementView<T, LANES> {
    /// The kind of the token, if the element is one.
    pub open spec fn kind(self) -> Option<TokenKind> {
        match self {
            ElementView::Token(token) => Some(token.token_kind),
            ElementView::Node(_) => None,
        }
    }
}

impl<T, const LANES: usize> ParseElement<T, LANES> {
    /// The places of the two operands, if the element is an operator node.
    pub fn get_operands_indices(&self) -> (r: Option<(usize, usize)>)
        ensures
            r == (match self@ {
                ElementView::Node(NodeView::Instruction { lhs, rhs, .. }) => Some((lhs, rhs)),
                _ => None,
            }),
    {
        match self {
            ParseElement::Node(node) => node.instruction_indices(),
            ParseElement::Token(_) => None,
        }
    }

    /// The kind of the token, if the element is one.
    pub fn token_kind(&self) -> (r: Option<TokenKind>)
        ensures
            r == self@.kind(),
    {
        match self {
            ParseElement::Token(token) => Some(token.kind()),
            ParseElement::Node(_) => None,
        }
    }
}

} // verus!
