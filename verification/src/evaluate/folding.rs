//! Constant folding: replacing what is known without the variables by its
//! value.
use super::enums::Operator;
use super::expression::Expression;
use super::function::Function;
use super::node::{Node, NodeView};
use super::parse_element::{views, ElementView, ParseElement};
use super::value::Value;
use crate::float::{is_float_unit, works_by, FloatOp};
use vstd::prelude::*;
use super::settling::{covers, lemma_covers_chain, lemma_runs_out_stays, runs_out, runs_out_any};
use vstd::slice::slice_to_vec;

verus! {

/// What folding has made of the elements, and the value of the tree that was
/// folded, if it is known without the variables.
pub struct Folded<T, const LANES: usize> {
    pub elements: Seq<ElementView<T, LANES>>,
    pub value: Option<Value<LANES>>,
}

/// What folding has made of the elements, and the values of the trees that
/// were folded, if all of them are known without the variables.
pub struct FoldedAll<T, const LANES: usize> {
    pub elements: Seq<ElementView<T, LANES>>,
    pub values: Option<Seq<Value<LANES>>>,
}

/// The folding of the tree under the element at the place `index`.
///
/// - A literal is known. A variable is not, nor is a token.
/// - An instruction is known if its two operands are known and its operator
///   has a result for them; it is then replaced by the result.
/// - A call is known if its function is constant, its arguments are known
///   and the function returns a value for them; it is then replaced by that
///   value.
///
/// Both operands and all arguments are folded, whether the others are known
/// or not. The folding goes `fuel` elements deep and no deeper; what lies
/// deeper is not known.
pub open spec fn fold<T: Function<LANES>, const LANES: usize>(
    elements: Seq<ElementView<T, LANES>>,
    rule: spec_fn(FloatOp) -> u64,
    index: usize,
    fuel: nat,
) -> Folded<T, LANES>
    decreases fuel, 0nat,
{
    if fuel == 0 || index >= elements.len() {
        Folded { elements, value: None }
    } else {
        match elements[index as int] {
            ElementView::Token(_) => Folded { elements, value: None },
            ElementView::Node(NodeView::Literal(value)) => Folded { elements, value: Some(value) },
            ElementView::Node(NodeView::Variable { .. }) => Folded { elements, value: None },
            ElementView::Node(NodeView::Instruction { operator, lhs, rhs }) => {
                let left = fold(elements, rule, lhs, (fuel - 1) as nat);
                let right = fold(left.elements, rule, rhs, (fuel - 1) as nat);
                replaced(
                    right.elements,
                    index,
                    match (left.value, right.value) {
                        (Some(l), Some(r)) => match operator.apply(l, r, rule) {
                            Ok(value) => Some(value),
                            Err(_) => None,
                        },
                        _ => None,
                    },
                )
            },
            ElementView::Node(NodeView::Function { function, args }) => {
                let inner = fold_all(elements, rule, args, (fuel - 1) as nat);
                replaced(
                    inner.elements,
                    index,
                    match inner.values {
                        Some(found) => if function.constant() {
                            match function.outcome(found, rule) {
                                Ok(value) => Some(value),
                                Err(_) => None,
                            }
                        } else {
                            None
                        },
                        None => None,
                    },
                )
            },
        }
    }
}

/// The elements with a literal at the place `index`, if the value is known.
pub open spec fn replaced<T, const LANES: usize>(
    elements: Seq<ElementView<T, LANES>>,
    index: usize,
    value: Option<Value<LANES>>,
) -> Folded<T, LANES> {
    match value {
        Some(known) => Folded {
            elements: elements.update(
                index as int,
                ElementView::Node(NodeView::Literal(known)),
            ),
            value,
        },
        None => Folded { elements, value },
    }
}

/// The folding of the trees under the elements at the places `roots`, one
/// after the other.
pub open spec fn fold_all<T: Function<LANES>, const LANES: usize>(
    elements: Seq<ElementView<T, LANES>>,
    rule: spec_fn(FloatOp) -> u64,
    roots: Seq<usize>,
    fuel: nat,
) -> FoldedAll<T, LANES>
    decreases fuel, 1 + roots.len(),
{
    if roots.len() == 0 {
        FoldedAll { elements, values: Some(Seq::empty()) }
    } else {
        let before = fold_all(elements, rule, roots.drop_last(), fuel);
        let last = fold(before.elements, rule, roots.last(), fuel);
        FoldedAll {
            elements: last.elements,
            values: match (before.values, last.value) {
                (Some(found), Some(value)) => Some(found.push(value)),
                _ => None,
            },
        }
    }
}

impl<T: Function<LANES>, const LANES: usize> Expression<T, LANES> {
    /// The operator and the operands of the instruction at `index`.
    fn instruction_at(elements: &Vec<ParseElement<T, LANES>>, index: usize) -> (r: Option<
        (Operator, usize, usize),
    >)
        requires
            index < elements@.len(),
        ensures
            r == (match views(elements@)[index as int] {
                ElementView::Node(NodeView::Instruction { operator, lhs, rhs }) => Some(
                    (operator, lhs, rhs),
                ),
                _ => None,
            }),
    {
        match &elements[index] {
            ParseElement::Node(Node::Instruction { operator, lhs, rhs }) => Some(
                (*operator, *lhs, *rhs),
            ),
            _ => None,
        }
    }

    /// The function and the arguments of the call at `index`.
    fn function_at(elements: &Vec<ParseElement<T, LANES>>, index: usize) -> (r: Option<
        (T, Vec<usize>),
    >)
        requires
            index < elements@.len(),
        ensures
            match views(elements@)[index as int] {
                ElementView::Node(NodeView::Function { function, args }) => r is Some
                    && r.unwrap().0 == function && r.unwrap().1@ == args,
                _ => r is None,
            },
    {
        match &elements[index] {
            ParseElement::Node(Node::Function { function, args }) => Some(
                (*function, slice_to_vec(args.as_slice())),
            ),
            _ => None,
        }
    }

    /// The value of the literal at `index`.
    fn literal_at(elements: &Vec<ParseElement<T, LANES>>, index: usize) -> (r: Option<
        Value<LANES>,
    >)
        requires
            index < elements@.len(),
        ensures
            r == (match views(elements@)[index as int] {
                ElementView::Node(NodeView::Literal(value)) => Some(value),
                _ => None,
            }),
    {
        match &elements[index] {
            ParseElement::Node(Node::Literal(value)) => Some(*value),
            _ => None,
        }
    }

    /// Finds out whether the tree under the element at `index` is deeper
    /// than `depth` elements.
    pub(crate) fn is_deeper(
        elements: &Vec<ParseElement<T, LANES>>,
        index: usize,
        depth: usize,
    ) -> (r: bool)
        ensures
            r == runs_out(views(elements@), index, depth as nat),
        decreases depth,
    {
        if depth == 0 {
            return true;
        }
        if index >= elements.len() {
            return false;
        }
        assert(views(elements@)[index as int] == elements@[index as int]@);
        match &elements[index] {
            ParseElement::Node(Node::Instruction { lhs, rhs, .. }) => {
                Self::is_deeper(elements, *lhs, depth - 1) || Self::is_deeper(
                    elements,
                    *rhs,
                    depth - 1,
                )
            },
            ParseElement::Node(Node::Function { function, args }) => {
                let mut k: usize = 0;
                assert(args@.take(0) =~= Seq::<usize>::empty());
                while k < args.len()
                    invariant
                        k <= args@.len(),
                        depth > 0,
                        index < elements@.len(),
                        views(elements@)[index as int] == ElementView::<T, LANES>::Node(
                            NodeView::Function { function: *function, args: args@ },
                        ),
                        !runs_out_any(views(elements@), args@.take(k as int), (depth - 1) as nat),
                    decreases args@.len() - k,
                {
                    assert(args@.take(k + 1).drop_last() =~= args@.take(k as int));
                    assert(args@.take(k + 1).last() == args@[k as int]);
                    if Self::is_deeper(elements, args[k], depth - 1) {
                        proof {
                            assert(runs_out_any(
                                views(elements@),
                                args@.take(k + 1),
                                (depth - 1) as nat,
                            ));
                            lemma_runs_out_stays(
                                views(elements@),
                                args@,
                                k + 1,
                                (depth - 1) as nat,
                            );
                        }
                        return true;
                    }
                    k += 1;
                }
                assert(args@.take(k as int) =~= args@);
                false
            },
            _ => false,
        }
    }

    /// Folds the tree under the element at `index`.
    pub(crate) fn optimize_recursive<U: Fn(FloatOp) -> u64>(
        elements: &mut Vec<ParseElement<T, LANES>>,
        unit: &U,
        index: usize,
        depth: usize,
    ) -> (r: Option<Value<LANES>>)
        requires
            is_float_unit(unit),
        ensures
            final(elements)@.len() == old(elements)@.len(),
            covers(views(old(elements)@), views(final(elements)@)),
            forall|rule: spec_fn(FloatOp) -> u64|
                works_by(unit, rule) ==> (views(final(elements)@) == fold(
                    views(old(elements)@),
                    rule,
                    index,
                    depth as nat,
                ).elements),
            forall|rule: spec_fn(FloatOp) -> u64|
                works_by(unit, rule) ==> r ==
                    fold(views(old(elements)@), rule, index, depth as nat).value,
        decreases depth,
    {
        if depth == 0 || index >= elements.len() {
            return None;
        }
        let ghost before = views(elements@);
        if let Some(value) = Self::literal_at(elements, index) {
            return Some(value);
        }
        if let Some((operator, lhs, rhs)) = Self::instruction_at(elements, index) {
            let left = Self::optimize_recursive(elements, unit, lhs, depth - 1);
            let right = Self::optimize_recursive(elements, unit, rhs, depth - 1);
            let value = match (left, right) {
                (Some(l), Some(r)) => match operator.eval(l, r, unit) {
                    Ok(value) => Some(value),
                    Err(_) => None,
                },
                _ => None,
            };
            if let Some(known) = value {
                Self::set_node(elements, index, Node::Literal(known));
            }
            return value;
        }
        if let Some((function, args)) = Self::function_at(elements, index) {
            let mut found: Vec<Value<LANES>> = Vec::new();
            let mut known = true;
            let mut k: usize = 0;
            assert(args@.take(0) =~= Seq::<usize>::empty());
            while k < args.len()
                invariant
                    k <= args@.len(),
                    depth > 0,
                    is_float_unit(unit),
                    elements@.len() == before.len(),
                    covers(before, views(elements@)),
                    forall|rule: spec_fn(FloatOp) -> u64|
                        works_by(unit, rule) ==> (views(elements@) == fold_all(
                            before,
                            rule,
                            args@.take(k as int),
                            (depth - 1) as nat,
                        ).elements),
                    forall|rule: spec_fn(FloatOp) -> u64|
                        works_by(unit, rule) ==> (match fold_all(
                            before,
                            rule,
                            args@.take(k as int),
                            (depth - 1) as nat,
                        ).values {
                            Some(values) => known && found@ == values,
                            None => !known,
                        }),
                decreases args@.len() - k,
            {
                assert(args@.take(k + 1).drop_last() =~= args@.take(k as int));
                assert(args@.take(k + 1).last() == args@[k as int]);
                let ghost held = views(elements@);
                match Self::optimize_recursive(elements, unit, args[k], depth - 1) {
                    Some(value) => {
                        if known {
                            found.push(value);
                        }
                    },
                    None => {
                        known = false;
                    },
                }
                proof {
                    lemma_covers_chain(before, held, views(elements@));
                }
                k += 1;
            }
            assert(args@.take(k as int) =~= args@);
            let value = if known && function.is_const() {
                match function.call(found.as_slice(), unit) {
                    Ok(value) => Some(value),
                    Err(_) => None,
                }
            } else {
                None
            };
            if let Some(known) = value {
                Self::set_node(elements, index, Node::Literal(known));
            }
            return value;
        }
        None
    }
}

} // verus!
