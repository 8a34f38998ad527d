//! The nodes of the tree.
use super::enums::Operator;
use super::value::Value;
use vstd::prelude::*;

verus! {

/// A node of the tree. A node names its children by their places in the
/// array of elements.
#[derive(Debug, PartialEq, Eq)]
pub enum Node<T, const LANES: usize> {
    /// An operator and the places of its two operands.
    Instruction { operator: Operator, lhs: usize, rhs: usize },
    /// A value that is known.
    Literal(Value<LANES>),
    /// The variable that holds the slot `index`.
    Variable { index: usize },
    /// A call of a function and the places of its arguments, in their order.
    Function { function: T, args: Vec<usize> },
}

/// What a node is.
pub enum NodeView<T, const LANES: usize> {
    Instruction { operator: Operator, lhs: usize, rhs: usize },
    Literal(Value<LANES>),
    Variable { index: usize },
    Function { function: T, args: Seq<usize> },
}

impl<T, const LANES: usize> View for Node<T, LANES> {
    type V = NodeView<T, LANES>;

    open spec fn view(&self) -> NodeView<T, LANES> {
        match self {
            Node::Instruction { operator, lhs, rhs } => NodeView::Instruction {
                operator: *operator,
                lhs: *lhs,
                rhs: *rhs,
            },
            Node::Literal(value) => NodeView::Literal(*value),
            Node::Variable { index } => NodeView::Variable { index: *index },
            Node::Function { function, args } => NodeView::Function {
                function: *function,
                args: args@,
            },
        }
    }
}

impl<T, const LANES: usize> NodeView<T, LANES> {
    /// How tightly the node binds: an operator by its weight, anything else
    /// not at all.
    pub open spec fn binding(self) -> int {
        match self {
            NodeView::Instruction { operator, .. } => operator.binding(),
            _ => 0,
        }
    }
}

impl<T, const LANES: usize> Node<T, LANES> {
    /// How tightly the node binds: an operator by its weight, anything else
    /// not at all.
    pub fn weight(&self) -> (w: i16)
        ensures
            w == self@.binding(),
    {
        match self {
            Node::Instruction { operator, .. } => operator.weight(),
            _ => 0,
        }
    }

    /// The places of the two operands, if the node is an operator.
    pub fn instruction_indices(&self) -> (r: Option<(usize, usize)>)
        ensures
            r == (match self@ {
                NodeView::Instruction { lhs, rhs, .. } => Some((lhs, rhs)),
                _ => None,
            }),
    {
        match self {
            Node::Instruction { lhs, rhs, .. } => Some((*lhs, *rhs)),
            _ => None,
        }
    }
}

} // verus!
