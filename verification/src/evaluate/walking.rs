//! The evaluation of a tree.
use super::expression::Expression;
use super::function::Function;
use super::node::{Node, NodeView};
use super::promotion::well_linked;
use super::parse_element::{views, ElementView, ParseElement};
use super::value::Value;
use super::variables::Variables;
use crate::error::Error;
use crate::float::{is_float_unit, works_by, FloatOp};
use vstd::prelude::*;

verus! {

/// The value of the tree under the element at the place `index`.
///
/// - An instruction has the value that its operator makes of the values of
///   its two operands, the left one first.
/// - A literal has its value, a variable the value of its slot.
/// - A call has the value that its function returns for the values of its
///   arguments.
/// - A place outside the array, and a place that holds a token, is an
///   `InvalidIndex`.
///
/// The first error ends the walk. The walk goes `fuel` elements deep and no
/// deeper: links that run in a circle end in an `InvalidIndex`.
pub open spec fn walk<T: Function<LANES>, const LANES: usize>(
    elements: Seq<ElementView<T, LANES>>,
    values: Seq<Value<LANES>>,
    rule: spec_fn(FloatOp) -> u64,
    index: usize,
    fuel: nat,
) -> Result<Value<LANES>, Error>
    decreases fuel, 0nat,
{
    if fuel == 0 || index >= elements.len() {
        Err(Error::InvalidIndex)
    } else {
        match elements[index as int] {
            ElementView::Token(_) => Err(Error::InvalidIndex),
            ElementView::Node(NodeView::Instruction { operator, lhs, rhs }) => match walk(
                elements,
                values,
                rule,
                lhs,
                (fuel - 1) as nat,
            ) {
                Ok(left) => match walk(elements, values, rule, rhs, (fuel - 1) as nat) {
                    Ok(right) => operator.apply(left, right, rule),
                    Err(e) => Err(e),
                },
                Err(e) => Err(e),
            },
            ElementView::Node(NodeView::Literal(value)) => Ok(value),
            ElementView::Node(NodeView::Variable { index: slot }) => if slot < values.len() {
                Ok(values[slot as int])
            } else {
                Err(Error::InvalidVariable)
            },
            ElementView::Node(NodeView::Function { function, args }) => match walk_all(
                elements,
                values,
                rule,
                args,
                (fuel - 1) as nat,
            ) {
                Ok(found) => function.outcome(found, rule),
                Err(e) => Err(e),
            },
        }
    }
}

/// The values of the trees under the elements at the places `roots`, in
/// their order, or the first error.
pub open spec fn walk_all<T: Function<LANES>, const LANES: usize>(
    elements: Seq<ElementView<T, LANES>>,
    values: Seq<Value<LANES>>,
    rule: spec_fn(FloatOp) -> u64,
    roots: Seq<usize>,
    fuel: nat,
) -> Result<Seq<Value<LANES>>, Error>
    decreases fuel, 1 + roots.len(),
{
    if roots.len() == 0 {
        Ok(Seq::empty())
    } else {
        match walk_all(elements, values, rule, roots.drop_last(), fuel) {
            Ok(found) => match walk(elements, values, rule, roots.last(), fuel) {
                Ok(value) => Ok(found.push(value)),
                Err(e) => Err(e),
            },
            Err(e) => Err(e),
        }
    }
}

impl<T: Function<LANES>, const LANES: usize> Expression<T, LANES> {
    /// Works out the value of the tree under the element at `index`.
    pub(crate) fn eval_recursive<U: Fn(FloatOp) -> u64>(
        elements: &Vec<ParseElement<T, LANES>>,
        variables: &Variables<LANES>,
        unit: &U,
        index: usize,
        depth: usize,
    ) -> (r: Result<Value<LANES>, Error>)
        requires
            is_float_unit(unit),
        ensures
            forall|rule: spec_fn(FloatOp) -> u64|
                works_by(unit, rule) ==> r ==
                    walk(views(elements@), variables.values(), rule, index, depth as nat),
        decreases depth,
    {
        if depth == 0 || index >= elements.len() {
            return Err(Error::InvalidIndex);
        }
        assert(views(elements@)[index as int] == elements@[index as int]@);
        match &elements[index] {
            ParseElement::Token(_) => Err(Error::InvalidIndex),
            ParseElement::Node(node) => match node {
                Node::Instruction { operator, lhs, rhs } => {
                    let left = match Self::eval_recursive(elements, variables, unit, *lhs, depth - 1) {
                        Ok(v) => v,
                        Err(e) => {
                            return Err(e);
                        },
                    };
                    let right = match Self::eval_recursive(
                        elements,
                        variables,
                        unit,
                        *rhs,
                        depth - 1,
                    ) {
                        Ok(v) => v,
                        Err(e) => {
                            return Err(e);
                        },
                    };
                    operator.eval(left, right, unit)
                },
                Node::Literal(value) => Ok(*value),
                Node::Variable { index: slot } => match variables.index(*slot) {
                    Some(value) => Ok(value),
                    None => Err(Error::InvalidVariable),
                },
                Node::Function { function, args } => {
                    let mut found: Vec<Value<LANES>> = Vec::new();
                    let mut k: usize = 0;
                    assert(args@.take(0) =~= Seq::<usize>::empty());
                    while k < args.len()
                        invariant
                            k <= args@.len(),
                            depth > 0,
                            index < elements@.len(),
                            views(elements@)[index as int] == ElementView::<T, LANES>::Node(
                                NodeView::Function { function: *function, args: args@ },
                            ),
                            is_float_unit(unit),
                            forall|rule: spec_fn(FloatOp) -> u64|
                                works_by(unit, rule) ==> (walk_all(
                                    views(elements@),
                                    variables.values(),
                                    rule,
                                    args@.take(k as int),
                                    (depth - 1) as nat,
                                ) == Ok::<Seq<Value<LANES>>, Error>(found@)),
                        decreases args@.len() - k,
                    {
                        assert(args@.take(k + 1).drop_last() =~= args@.take(k as int));
                        match Self::eval_recursive(elements, variables, unit, args[k], depth - 1) {
                            Ok(value) => {
                                found.push(value);
                            },
                            Err(e) => {
                                proof {
                                    assert(args@.take(k + 1).last() == args@[k as int]);
                                    assert forall|rule: spec_fn(FloatOp) -> u64|
                                        works_by(unit, rule) implies walk_all(
                                            views(elements@),
                                            variables.values(),
                                            rule,
                                            args@,
                                            (depth - 1) as nat,
                                        ) == Err::<Seq<Value<LANES>>, Error>(e) by {
                                            assert(walk_all(
                                                views(elements@),
                                                variables.values(),
                                                rule,
                                                args@.take(k + 1),
                                                (depth - 1) as nat,
                                            ) == Err::<Seq<Value<LANES>>, Error>(e));
                                            lemma_walk_all_error_stays(
                                                views(elements@),
                                                variables.values(),
                                                rule,
                                                args@,
                                                k + 1,
                                                (depth - 1) as nat,
                                            );
                                        }
                                }
                                return Err(e);
                            },
                        }
                        k += 1;
                    }
                    assert(args@.take(k as int) =~= args@);
                    function.call(found.as_slice(), unit)
                },
            },
        }
    }
}

/// Once an argument has no value, the arguments have none, with the same
/// error.
pub proof fn lemma_walk_all_error_stays<T: Function<LANES>, const LANES: usize>(
    elements: Seq<ElementView<T, LANES>>,
    values: Seq<Value<LANES>>,
    rule: spec_fn(FloatOp) -> u64,
    roots: Seq<usize>,
    k: int,
    fuel: nat,
)
    requires
        0 <= k <= roots.len(),
        walk_all(elements, values, rule, roots.take(k), fuel) is Err,
    ensures
        walk_all(elements, values, rule, roots, fuel) == walk_all(
            elements,
            values,
            rule,
            roots.take(k),
            fuel,
        ),
    decreases roots.len() - k,
{
    if k < roots.len() {
        assert(roots.take(k + 1).drop_last() =~= roots.take(k));
        lemma_walk_all_error_stays(elements, values, rule, roots, k + 1, fuel);
    } else {
        assert(roots.take(k) =~= roots);
    }
}

/// Every variable that a compiled formula names has a value: the walk of a
/// tree whose variables all have slots never ends in an `InvalidVariable`,
/// unless a function of the library returns one.
pub proof fn lemma_variables_bound<T: Function<LANES>, const LANES: usize>(
    elements: Seq<ElementView<T, LANES>>,
    values: Seq<Value<LANES>>,
    rule: spec_fn(FloatOp) -> u64,
    index: usize,
    fuel: nat,
    capacity: nat,
)
    requires
        well_linked(elements, values.len(), capacity),
        forall|function: T, args: Seq<Value<LANES>>| #[trigger]
            function.outcome(args, rule) != Err::<Value<LANES>, Error>(Error::InvalidVariable),
    ensures
        walk(elements, values, rule, index, fuel) != Err::<Value<LANES>, Error>(
            Error::InvalidVariable,
        ),
    decreases fuel, 0nat,
{
    if fuel > 0 && index < elements.len() {
        match elements[index as int] {
            ElementView::Node(NodeView::Instruction { operator, lhs, rhs }) => {
                lemma_variables_bound(elements, values, rule, lhs, (fuel - 1) as nat, capacity);
                lemma_variables_bound(elements, values, rule, rhs, (fuel - 1) as nat, capacity);
            },
            ElementView::Node(NodeView::Function { function, args }) => {
                lemma_all_variables_bound(
                    elements,
                    values,
                    rule,
                    args,
                    (fuel - 1) as nat,
                    capacity,
                );
            },
            _ => {},
        }
    }
}

proof fn lemma_all_variables_bound<T: Function<LANES>, const LANES: usize>(
    elements: Seq<ElementView<T, LANES>>,
    values: Seq<Value<LANES>>,
    rule: spec_fn(FloatOp) -> u64,
    roots: Seq<usize>,
    fuel: nat,
    capacity: nat,
)
    requires
        well_linked(elements, values.len(), capacity),
        forall|function: T, args: Seq<Value<LANES>>| #[trigger]
            function.outcome(args, rule) != Err::<Value<LANES>, Error>(Error::InvalidVariable),
    ensures
        walk_all(elements, values, rule, roots, fuel) != Err::<Seq<Value<LANES>>, Error>(
            Error::InvalidVariable,
        ),
    decreases fuel, 1 + roots.len(),
{
    if roots.len() > 0 {
        lemma_all_variables_bound(elements, values, rule, roots.drop_last(), fuel, capacity);
        lemma_variables_bound(elements, values, rule, roots.last(), fuel, capacity);
    }
}

} // verus!
