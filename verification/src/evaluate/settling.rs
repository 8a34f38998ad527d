//! What holds of folding: it finds the values that the tree has, it changes
//! no value, and folding twice is folding once.
use super::folding::{fold, fold_all};
use super::function::Function;
use super::node::NodeView;
use super::parse_element::ElementView;
use super::value::Value;
use super::walking::{walk, walk_all};
use crate::error::Error;
use crate::float::FloatOp;
use vstd::prelude::*;

verus! {

/// Whether an element is a literal.
pub open spec fn is_literal<T, const LANES: usize>(element: ElementView<T, LANES>) -> bool {
    element is Node && element->Node_0 is Literal
}

/// Whether an element has operands or arguments.
pub open spec fn is_compound<T, const LANES: usize>(element: ElementView<T, LANES>) -> bool {
    element is Node && (element->Node_0 is Instruction || element->Node_0 is Function)
}

/// Whether the tree under the element at `index` is deeper than `fuel`
/// elements, as it is where the links run in a circle.
pub open spec fn runs_out<T, const LANES: usize>(
    elements: Seq<ElementView<T, LANES>>,
    index: usize,
    fuel: nat,
) -> bool
    decreases fuel, 0nat,
{
    if fuel == 0 {
        true
    } else if index >= elements.len() {
        false
    } else {
        match elements[index as int] {
            ElementView::Node(NodeView::Instruction { lhs, rhs, .. }) => runs_out(
                elements,
                lhs,
                (fuel - 1) as nat,
            ) || runs_out(elements, rhs, (fuel - 1) as nat),
            ElementView::Node(NodeView::Function { args, .. }) => runs_out_any(
                elements,
                args,
                (fuel - 1) as nat,
            ),
            _ => false,
        }
    }
}

/// Whether one of the trees under the elements at `roots` is deeper than
/// `fuel` elements.
pub open spec fn runs_out_any<T, const LANES: usize>(
    elements: Seq<ElementView<T, LANES>>,
    roots: Seq<usize>,
    fuel: nat,
) -> bool
    decreases fuel, 1 + roots.len(),
{
    if roots.len() == 0 {
        false
    } else {
        runs_out_any(elements, roots.drop_last(), fuel) || runs_out(elements, roots.last(), fuel)
    }
}

/// Once one tree is too deep, one of the trees is.
pub proof fn lemma_runs_out_stays<T, const LANES: usize>(
    elements: Seq<ElementView<T, LANES>>,
    roots: Seq<usize>,
    k: int,
    fuel: nat,
)
    requires
        0 <= k <= roots.len(),
        runs_out_any(elements, roots.take(k), fuel),
    ensures
        runs_out_any(elements, roots, fuel),
    decreases roots.len() - k,
{
    if k < roots.len() {
        assert(roots.take(k + 1).drop_last() =~= roots.take(k));
        lemma_runs_out_stays(elements, roots, k + 1, fuel);
    } else {
        assert(roots.take(k) =~= roots);
    }
}

/// The values of the trees under the elements at `roots`, each folded by
/// itself, if all of them are known.
pub open spec fn known_all<T: Function<LANES>, const LANES: usize>(
    elements: Seq<ElementView<T, LANES>>,
    rule: spec_fn(FloatOp) -> u64,
    roots: Seq<usize>,
    fuel: nat,
) -> Option<Seq<Value<LANES>>>
    decreases roots.len(),
{
    if roots.len() == 0 {
        Some(Seq::empty())
    } else {
        match (
            known_all(elements, rule, roots.drop_last(), fuel),
            fold(elements, rule, roots.last(), fuel).value,
        ) {
            (Some(found), Some(value)) => Some(found.push(value)),
            _ => None,
        }
    }
}

/// `after` is `before` with some elements replaced by literals.
pub open spec fn covers<T, const LANES: usize>(
    before: Seq<ElementView<T, LANES>>,
    after: Seq<ElementView<T, LANES>>,
) -> bool {
    &&& after.len() == before.len()
    &&& forall|k: int|
        0 <= k < before.len() ==> (#[trigger] after[k]) == before[k] || is_literal(after[k])
}

/// `after` is `base` with some instructions and calls replaced by the
/// values that folding finds for them in `base`.
pub open spec fn refines<T: Function<LANES>, const LANES: usize>(
    base: Seq<ElementView<T, LANES>>,
    after: Seq<ElementView<T, LANES>>,
    rule: spec_fn(FloatOp) -> u64,
    cap: nat,
) -> bool {
    &&& after.len() == base.len()
    &&& forall|k: int|
        0 <= k < base.len() ==> (#[trigger] after[k]) == base[k] || (is_compound(base[k])
            && !runs_out(base, k as usize, cap) && fold(base, rule, k as usize, cap).value is Some
            && after[k] == ElementView::<T, LANES>::Node(
            NodeView::Literal(fold(base, rule, k as usize, cap).value.unwrap()),
        ))
}

/// In `after`, folding has nothing left to do under the element at `index`:
/// every instruction and call that folding reaches from there and whose
/// value is known in `base` is a literal.
pub open spec fn settled<T: Function<LANES>, const LANES: usize>(
    base: Seq<ElementView<T, LANES>>,
    after: Seq<ElementView<T, LANES>>,
    rule: spec_fn(FloatOp) -> u64,
    cap: nat,
    index: usize,
    fuel: nat,
) -> bool
    decreases fuel, 0nat,
{
    if fuel == 0 || index >= base.len() {
        true
    } else {
        match base[index as int] {
            ElementView::Node(NodeView::Instruction { lhs, rhs, .. }) => if fold(
                base,
                rule,
                index,
                cap,
            ).value is Some {
                is_literal(after[index as int])
            } else {
                after[index as int] == base[index as int] && settled(
                    base,
                    after,
                    rule,
                    cap,
                    lhs,
                    (fuel - 1) as nat,
                ) && settled(base, after, rule, cap, rhs, (fuel - 1) as nat)
            },
            ElementView::Node(NodeView::Function { args, .. }) => if fold(
                base,
                rule,
                index,
                cap,
            ).value is Some {
                is_literal(after[index as int])
            } else {
                after[index as int] == base[index as int] && settled_all(
                    base,
                    after,
                    rule,
                    cap,
                    args,
                    (fuel - 1) as nat,
                )
            },
            _ => true,
        }
    }
}

/// In `after`, folding has nothing left to do under any of the elements at
/// `roots`.
pub open spec fn settled_all<T: Function<LANES>, const LANES: usize>(
    base: Seq<ElementView<T, LANES>>,
    after: Seq<ElementView<T, LANES>>,
    rule: spec_fn(FloatOp) -> u64,
    cap: nat,
    roots: Seq<usize>,
    fuel: nat,
) -> bool
    decreases fuel, 1 + roots.len(),
{
    if roots.len() == 0 {
        true
    } else {
        settled_all(base, after, rule, cap, roots.drop_last(), fuel) && settled(
            base,
            after,
            rule,
            cap,
            roots.last(),
            fuel,
        )
    }
}

/// Replacing elements by literals twice is replacing elements by literals.
pub proof fn lemma_covers_chain<T, const LANES: usize>(
    a: Seq<ElementView<T, LANES>>,
    b: Seq<ElementView<T, LANES>>,
    c: Seq<ElementView<T, LANES>>,
)
    requires
        covers(a, b),
        covers(b, c),
    ensures
        covers(a, c),
{
    assert forall|k: int| 0 <= k < a.len() implies (#[trigger] c[k]) ==
        a[k] || is_literal(c[k]) by {
        assert(b[k] == a[k] || is_literal(b[k]));
    }
}

/// Folding replaces elements by literals and does nothing else.
pub proof fn lemma_fold_covers<T: Function<LANES>, const LANES: usize>(
    elements: Seq<ElementView<T, LANES>>,
    rule: spec_fn(FloatOp) -> u64,
    index: usize,
    fuel: nat,
)
    ensures
        covers(elements, fold(elements, rule, index, fuel).elements),
    decreases fuel, 0nat,
{
    if fuel == 0 || index >= elements.len() {
    } else {
        match elements[index as int] {
            ElementView::Node(NodeView::Instruction { operator, lhs, rhs }) => {
                let left = fold(elements, rule, lhs, (fuel - 1) as nat);
                let right = fold(left.elements, rule, rhs, (fuel - 1) as nat);
                lemma_fold_covers(elements, rule, lhs, (fuel - 1) as nat);
                lemma_fold_covers(left.elements, rule, rhs, (fuel - 1) as nat);
                lemma_covers_chain(elements, left.elements, right.elements);
                lemma_covers_chain(
                    elements,
                    right.elements,
                    fold(elements, rule, index, fuel).elements,
                );
            },
            ElementView::Node(NodeView::Function { function, args }) => {
                let inner = fold_all(elements, rule, args, (fuel - 1) as nat);
                lemma_fold_all_covers(elements, rule, args, (fuel - 1) as nat);
                lemma_covers_chain(
                    elements,
                    inner.elements,
                    fold(elements, rule, index, fuel).elements,
                );
            },
            _ => {},
        }
    }
}

proof fn lemma_fold_all_covers<T: Function<LANES>, const LANES: usize>(
    elements: Seq<ElementView<T, LANES>>,
    rule: spec_fn(FloatOp) -> u64,
    roots: Seq<usize>,
    fuel: nat,
)
    ensures
        covers(elements, fold_all(elements, rule, roots, fuel).elements),
    decreases fuel, 1 + roots.len(),
{
    if roots.len() > 0 {
        let before = fold_all(elements, rule, roots.drop_last(), fuel);
        lemma_fold_all_covers(elements, rule, roots.drop_last(), fuel);
        lemma_fold_covers(before.elements, rule, roots.last(), fuel);
        lemma_covers_chain(
            elements,
            before.elements,
            fold_all(elements, rule, roots, fuel).elements,
        );
    }
}

/// A tree gets no deeper when elements are replaced by literals.
proof fn lemma_covers_runs_out<T, const LANES: usize>(
    before: Seq<ElementView<T, LANES>>,
    after: Seq<ElementView<T, LANES>>,
    index: usize,
    fuel: nat,
)
    requires
        covers(before, after),
        !runs_out(before, index, fuel),
    ensures
        !runs_out(after, index, fuel),
    decreases fuel, 0nat,
{
    if fuel > 0 && index < before.len() {
        assert(after[index as int] == before[index as int] || is_literal(after[index as int]));
        if after[index as int] == before[index as int] {
            match before[index as int] {
                ElementView::Node(NodeView::Instruction { lhs, rhs, .. }) => {
                    lemma_covers_runs_out(before, after, lhs, (fuel - 1) as nat);
                    lemma_covers_runs_out(before, after, rhs, (fuel - 1) as nat);
                },
                ElementView::Node(NodeView::Function { args, .. }) => {
                    lemma_covers_runs_out_any(before, after, args, (fuel - 1) as nat);
                },
                _ => {},
            }
        }
    }
}

proof fn lemma_covers_runs_out_any<T, const LANES: usize>(
    before: Seq<ElementView<T, LANES>>,
    after: Seq<ElementView<T, LANES>>,
    roots: Seq<usize>,
    fuel: nat,
)
    requires
        covers(before, after),
        !runs_out_any(before, roots, fuel),
    ensures
        !runs_out_any(after, roots, fuel),
    decreases fuel, 1 + roots.len(),
{
    if roots.len() > 0 {
        lemma_covers_runs_out_any(before, after, roots.drop_last(), fuel);
        lemma_covers_runs_out(before, after, roots.last(), fuel);
    }
}

/// Where folding does not run out of fuel, more fuel changes nothing.
proof fn lemma_more_fuel<T: Function<LANES>, const LANES: usize>(
    elements: Seq<ElementView<T, LANES>>,
    rule: spec_fn(FloatOp) -> u64,
    index: usize,
    fuel: nat,
    more: nat,
)
    requires
        !runs_out(elements, index, fuel),
        fuel <= more,
    ensures
        fold(elements, rule, index, more) == fold(elements, rule, index, fuel),
        !runs_out(elements, index, more),
    decreases fuel, 0nat,
{
    if index < elements.len() {
        match elements[index as int] {
            ElementView::Node(NodeView::Instruction { operator, lhs, rhs }) => {
                let left = fold(elements, rule, lhs, (fuel - 1) as nat);
                lemma_more_fuel(elements, rule, lhs, (fuel - 1) as nat, (more - 1) as nat);
                lemma_fold_covers(elements, rule, lhs, (fuel - 1) as nat);
                lemma_covers_runs_out(elements, left.elements, rhs, (fuel - 1) as nat);
                lemma_more_fuel(left.elements, rule, rhs, (fuel - 1) as nat, (more - 1) as nat);
                lemma_more_fuel_depth(elements, rhs, (fuel - 1) as nat, (more - 1) as nat);
            },
            ElementView::Node(NodeView::Function { function, args }) => {
                lemma_more_fuel_all(elements, rule, args, (fuel - 1) as nat, (more - 1) as nat);
            },
            _ => {},
        }
    }
}

proof fn lemma_more_fuel_all<T: Function<LANES>, const LANES: usize>(
    elements: Seq<ElementView<T, LANES>>,
    rule: spec_fn(FloatOp) -> u64,
    roots: Seq<usize>,
    fuel: nat,
    more: nat,
)
    requires
        !runs_out_any(elements, roots, fuel),
        fuel <= more,
    ensures
        fold_all(elements, rule, roots, more) == fold_all(elements, rule, roots, fuel),
        !runs_out_any(elements, roots, more),
    decreases fuel, 1 + roots.len(),
{
    if roots.len() > 0 {
        let before = fold_all(elements, rule, roots.drop_last(), fuel);
        lemma_more_fuel_all(elements, rule, roots.drop_last(), fuel, more);
        lemma_fold_all_covers(elements, rule, roots.drop_last(), fuel);
        lemma_covers_runs_out(elements, before.elements, roots.last(), fuel);
        lemma_more_fuel(before.elements, rule, roots.last(), fuel, more);
        lemma_more_fuel_depth(elements, roots.last(), fuel, more);
    }
}

/// A tree that is no deeper than some fuel is no deeper than more fuel.
proof fn lemma_more_fuel_depth<T, const LANES: usize>(
    elements: Seq<ElementView<T, LANES>>,
    index: usize,
    fuel: nat,
    more: nat,
)
    requires
        !runs_out(elements, index, fuel),
        fuel <= more,
    ensures
        !runs_out(elements, index, more),
    decreases fuel, 0nat,
{
    if index < elements.len() {
        match elements[index as int] {
            ElementView::Node(NodeView::Instruction { lhs, rhs, .. }) => {
                lemma_more_fuel_depth(elements, lhs, (fuel - 1) as nat, (more - 1) as nat);
                lemma_more_fuel_depth(elements, rhs, (fuel - 1) as nat, (more - 1) as nat);
            },
            ElementView::Node(NodeView::Function { args, .. }) => {
                lemma_more_fuel_depth_any(elements, args, (fuel - 1) as nat, (more - 1) as nat);
            },
            _ => {},
        }
    }
}

proof fn lemma_more_fuel_depth_any<T, const LANES: usize>(
    elements: Seq<ElementView<T, LANES>>,
    roots: Seq<usize>,
    fuel: nat,
    more: nat,
)
    requires
        !runs_out_any(elements, roots, fuel),
        fuel <= more,
    ensures
        !runs_out_any(elements, roots, more),
    decreases fuel, 1 + roots.len(),
{
    if roots.len() > 0 {
        lemma_more_fuel_depth_any(elements, roots.drop_last(), fuel, more);
        lemma_more_fuel_depth(elements, roots.last(), fuel, more);
    }
}

/// What has settled stays settled when more elements are replaced by the
/// values that folding finds for them.
proof fn lemma_settled_stays<T: Function<LANES>, const LANES: usize>(
    base: Seq<ElementView<T, LANES>>,
    before: Seq<ElementView<T, LANES>>,
    after: Seq<ElementView<T, LANES>>,
    rule: spec_fn(FloatOp) -> u64,
    cap: nat,
    index: usize,
    fuel: nat,
)
    requires
        settled(base, before, rule, cap, index, fuel),
        covers(before, after),
        refines(base, after, rule, cap),
    ensures
        settled(base, after, rule, cap, index, fuel),
    decreases fuel, 0nat,
{
    if fuel > 0 && index < base.len() {
        assert(after[index as int] == before[index as int] || is_literal(after[index as int]));
        assert(after[index as int] == base[index as int] || fold(
            base,
            rule,
            index,
            cap,
        ).value is Some);
        match base[index as int] {
            ElementView::Node(NodeView::Instruction { lhs, rhs, .. }) => {
                if fold(base, rule, index, cap).value is None {
                    lemma_settled_stays(base, before, after, rule, cap, lhs, (fuel - 1) as nat);
                    lemma_settled_stays(base, before, after, rule, cap, rhs, (fuel - 1) as nat);
                }
            },
            ElementView::Node(NodeView::Function { args, .. }) => {
                if fold(base, rule, index, cap).value is None {
                    lemma_settled_all_stays(
                        base,
                        before,
                        after,
                        rule,
                        cap,
                        args,
                        (fuel - 1) as nat,
                    );
                }
            },
            _ => {},
        }
    }
}

proof fn lemma_settled_all_stays<T: Function<LANES>, const LANES: usize>(
    base: Seq<ElementView<T, LANES>>,
    before: Seq<ElementView<T, LANES>>,
    after: Seq<ElementView<T, LANES>>,
    rule: spec_fn(FloatOp) -> u64,
    cap: nat,
    roots: Seq<usize>,
    fuel: nat,
)
    requires
        settled_all(base, before, rule, cap, roots, fuel),
        covers(before, after),
        refines(base, after, rule, cap),
    ensures
        settled_all(base, after, rule, cap, roots, fuel),
    decreases fuel, 1 + roots.len(),
{
    if roots.len() > 0 {
        lemma_settled_all_stays(base, before, after, rule, cap, roots.drop_last(), fuel);
        lemma_settled_stays(base, before, after, rule, cap, roots.last(), fuel);
    }
}

/// Folding finds the same values in the elements and in the elements with
/// some of those values already in place, and it leaves the latter settled.
proof fn lemma_fold_refined<T: Function<LANES>, const LANES: usize>(
    base: Seq<ElementView<T, LANES>>,
    current: Seq<ElementView<T, LANES>>,
    rule: spec_fn(FloatOp) -> u64,
    cap: nat,
    index: usize,
    fuel: nat,
)
    requires
        refines(base, current, rule, cap),
        !runs_out(base, index, fuel),
        fuel <= cap,
    ensures
        fold(current, rule, index, fuel).value == fold(base, rule, index, fuel).value,
        refines(base, fold(current, rule, index, fuel).elements, rule, cap),
        settled(base, fold(current, rule, index, fuel).elements, rule, cap, index, fuel),
    decreases fuel, 0nat,
{
    if index < base.len() {
        let result = fold(current, rule, index, fuel);
        lemma_more_fuel(base, rule, index, fuel, cap);
        assert(current[index as int] == base[index as int] || is_literal(current[index as int]));
        if current[index as int] != base[index as int] {
        } else {
            match base[index as int] {
                ElementView::Node(NodeView::Instruction { operator, lhs, rhs }) => {
                    let next = (fuel - 1) as nat;
                    let left = fold(current, rule, lhs, next);
                    let right = fold(left.elements, rule, rhs, next);
                    let base_left = fold(base, rule, lhs, next);
                    lemma_fold_refined(base, current, rule, cap, lhs, next);
                    lemma_fold_refined(base, left.elements, rule, cap, rhs, next);
                    lemma_refines_itself(base, rule, cap);
                    lemma_fold_refined(base, base, rule, cap, lhs, next);
                    lemma_fold_refined(base, base_left.elements, rule, cap, rhs, next);
                    lemma_fold_covers(left.elements, rule, rhs, next);
                    if result.value is Some {
                        assert(result.elements[index as int] == ElementView::<T, LANES>::Node(
                            NodeView::Literal(result.value.unwrap()),
                        ));
                        assert forall|k: int| 0 <= k < base.len() implies (
                        #[trigger] result.elements[k]) == base[k] || (is_compound(base[k])
                            && !runs_out(base, k as usize, cap) && fold(
                            base,
                            rule,
                            k as usize,
                            cap,
                        ).value is Some && result.elements[k] == ElementView::<T, LANES>::Node(
                            NodeView::Literal(fold(base, rule, k as usize, cap).value.unwrap()),
                        )) by {
                            if k != index {
                                assert(result.elements[k] == right.elements[k]);
                            }
                        }
                    } else {
                        assert(result.elements == right.elements);
                        assert(right.elements[index as int] == base[index as int]);
                        lemma_settled_stays(
                            base,
                            left.elements,
                            right.elements,
                            rule,
                            cap,
                            lhs,
                            next,
                        );
                    }
                },
                ElementView::Node(NodeView::Function { function, args }) => {
                    let next = (fuel - 1) as nat;
                    let inner = fold_all(current, rule, args, next);
                    lemma_fold_all_refined(base, current, rule, cap, args, next);
                    lemma_refines_itself(base, rule, cap);
                    lemma_fold_all_refined(base, base, rule, cap, args, next);
                    if result.value is Some {
                        assert(result.elements[index as int] == ElementView::<T, LANES>::Node(
                            NodeView::Literal(result.value.unwrap()),
                        ));
                        assert forall|k: int| 0 <= k < base.len() implies (
                        #[trigger] result.elements[k]) == base[k] || (is_compound(base[k])
                            && !runs_out(base, k as usize, cap) && fold(
                            base,
                            rule,
                            k as usize,
                            cap,
                        ).value is Some && result.elements[k] == ElementView::<T, LANES>::Node(
                            NodeView::Literal(fold(base, rule, k as usize, cap).value.unwrap()),
                        )) by {
                            if k != index {
                                assert(result.elements[k] == inner.elements[k]);
                            }
                        }
                    } else {
                        assert(result.elements == inner.elements);
                        assert(inner.elements[index as int] == base[index as int]);
                    }
                },
                _ => {},
            }
        }
    }
}

proof fn lemma_fold_all_refined<T: Function<LANES>, const LANES: usize>(
    base: Seq<ElementView<T, LANES>>,
    current: Seq<ElementView<T, LANES>>,
    rule: spec_fn(FloatOp) -> u64,
    cap: nat,
    roots: Seq<usize>,
    fuel: nat,
)
    requires
        refines(base, current, rule, cap),
        !runs_out_any(base, roots, fuel),
        fuel < cap,
    ensures
        fold_all(current, rule, roots, fuel).values == known_all(base, rule, roots, fuel),
        refines(base, fold_all(current, rule, roots, fuel).elements, rule, cap),
        settled_all(base, fold_all(current, rule, roots, fuel).elements, rule, cap, roots, fuel),
    decreases fuel, 1 + roots.len(),
{
    if roots.len() > 0 {
        let before = fold_all(current, rule, roots.drop_last(), fuel);
        let last = fold(before.elements, rule, roots.last(), fuel);
        lemma_fold_all_refined(base, current, rule, cap, roots.drop_last(), fuel);
        lemma_fold_refined(base, before.elements, rule, cap, roots.last(), fuel);
        lemma_fold_covers(before.elements, rule, roots.last(), fuel);
        lemma_settled_all_stays(
            base,
            before.elements,
            last.elements,
            rule,
            cap,
            roots.drop_last(),
            fuel,
        );
    }
}

proof fn lemma_refines_itself<T: Function<LANES>, const LANES: usize>(
    base: Seq<ElementView<T, LANES>>,
    rule: spec_fn(FloatOp) -> u64,
    cap: nat,
)
    ensures
        refines(base, base, rule, cap),
{
}

/// Folding changes nothing where everything has settled.
proof fn lemma_settled_fold<T: Function<LANES>, const LANES: usize>(
    base: Seq<ElementView<T, LANES>>,
    current: Seq<ElementView<T, LANES>>,
    rule: spec_fn(FloatOp) -> u64,
    cap: nat,
    index: usize,
    fuel: nat,
)
    requires
        refines(base, current, rule, cap),
        settled(base, current, rule, cap, index, fuel),
        !runs_out(base, index, fuel),
        fuel <= cap,
    ensures
        fold(current, rule, index, fuel).elements == current,
    decreases fuel, 0nat,
{
    if index < base.len() {
        lemma_more_fuel(base, rule, index, fuel, cap);
        lemma_fold_refined(base, current, rule, cap, index, fuel);
        assert(current[index as int] == base[index as int] || is_literal(current[index as int]));
        if current[index as int] == base[index as int] {
            match base[index as int] {
                ElementView::Node(NodeView::Instruction { operator, lhs, rhs }) => {
                    let next = (fuel - 1) as nat;
                    lemma_settled_fold(base, current, rule, cap, lhs, next);
                    lemma_settled_fold(base, current, rule, cap, rhs, next);
                },
                ElementView::Node(NodeView::Function { function, args }) => {
                    let next = (fuel - 1) as nat;
                    lemma_settled_fold_all(base, current, rule, cap, args, next);
                },
                _ => {},
            }
        }
    }
}

proof fn lemma_settled_fold_all<T: Function<LANES>, const LANES: usize>(
    base: Seq<ElementView<T, LANES>>,
    current: Seq<ElementView<T, LANES>>,
    rule: spec_fn(FloatOp) -> u64,
    cap: nat,
    roots: Seq<usize>,
    fuel: nat,
)
    requires
        refines(base, current, rule, cap),
        settled_all(base, current, rule, cap, roots, fuel),
        !runs_out_any(base, roots, fuel),
        fuel < cap,
    ensures
        fold_all(current, rule, roots, fuel).elements == current,
    decreases fuel, 1 + roots.len(),
{
    if roots.len() > 0 {
        lemma_settled_fold_all(base, current, rule, cap, roots.drop_last(), fuel);
        lemma_settled_fold(base, current, rule, cap, roots.last(), fuel);
    }
}

/// Folding a tree that has been folded changes nothing: the elements stay
/// as the first folding left them, and the value that is found is the same.
/// This holds of every tree that is no deeper than the fuel, which is every
/// tree whose links do not run in a circle.
pub proof fn lemma_fold_twice<T: Function<LANES>, const LANES: usize>(
    elements: Seq<ElementView<T, LANES>>,
    rule: spec_fn(FloatOp) -> u64,
    index: usize,
    fuel: nat,
)
    requires
        !runs_out(elements, index, fuel),
    ensures
        fold(fold(elements, rule, index, fuel).elements, rule, index, fuel) == fold(
            elements,
            rule,
            index,
            fuel,
        ),
{
    let once = fold(elements, rule, index, fuel);
    lemma_refines_itself(elements, rule, fuel);
    lemma_fold_refined(elements, elements, rule, fuel, index, fuel);
    lemma_fold_refined(elements, once.elements, rule, fuel, index, fuel);
    lemma_settled_fold(elements, once.elements, rule, fuel, index, fuel);
}

/// The value that folding finds for a tree is the value of the tree,
/// whatever the variables hold.
proof fn lemma_known_is_value<T: Function<LANES>, const LANES: usize>(
    elements: Seq<ElementView<T, LANES>>,
    values: Seq<Value<LANES>>,
    rule: spec_fn(FloatOp) -> u64,
    index: usize,
    fuel: nat,
)
    requires
        !runs_out(elements, index, fuel),
        fold(elements, rule, index, fuel).value is Some,
    ensures
        walk(elements, values, rule, index, fuel) == Ok::<Value<LANES>, Error>(
            fold(elements, rule, index, fuel).value.unwrap(),
        ),
    decreases fuel, 0nat,
{
    if index < elements.len() {
        let next = (fuel - 1) as nat;
        match elements[index as int] {
            ElementView::Node(NodeView::Instruction { operator, lhs, rhs }) => {
                let left = fold(elements, rule, lhs, next);
                lemma_refines_itself(elements, rule, next);
                lemma_fold_refined(elements, elements, rule, next, lhs, next);
                lemma_fold_refined(elements, left.elements, rule, next, rhs, next);
                lemma_known_is_value(elements, values, rule, lhs, next);
                lemma_known_is_value(elements, values, rule, rhs, next);
            },
            ElementView::Node(NodeView::Function { function, args }) => {
                lemma_refines_itself(elements, rule, fuel);
                lemma_fold_all_refined(elements, elements, rule, fuel, args, next);
                lemma_known_are_values(elements, values, rule, args, next);
            },
            _ => {},
        }
    }
}

proof fn lemma_known_are_values<T: Function<LANES>, const LANES: usize>(
    elements: Seq<ElementView<T, LANES>>,
    values: Seq<Value<LANES>>,
    rule: spec_fn(FloatOp) -> u64,
    roots: Seq<usize>,
    fuel: nat,
)
    requires
        !runs_out_any(elements, roots, fuel),
        known_all(elements, rule, roots, fuel) is Some,
    ensures
        walk_all(elements, values, rule, roots, fuel) == Ok::<Seq<Value<LANES>>, Error>(
            known_all(elements, rule, roots, fuel).unwrap(),
        ),
    decreases fuel, 1 + roots.len(),
{
    if roots.len() > 0 {
        lemma_known_are_values(elements, values, rule, roots.drop_last(), fuel);
        lemma_known_is_value(elements, values, rule, roots.last(), fuel);
    }
}

/// A tree has the same value with some of the values that folding finds
/// already in place.
proof fn lemma_walk_refined<T: Function<LANES>, const LANES: usize>(
    base: Seq<ElementView<T, LANES>>,
    current: Seq<ElementView<T, LANES>>,
    values: Seq<Value<LANES>>,
    rule: spec_fn(FloatOp) -> u64,
    cap: nat,
    index: usize,
    fuel: nat,
)
    requires
        refines(base, current, rule, cap),
        !runs_out(base, index, fuel),
        fuel <= cap,
    ensures
        walk(current, values, rule, index, fuel) == walk(base, values, rule, index, fuel),
    decreases fuel, 0nat,
{
    if index < base.len() {
        let next = (fuel - 1) as nat;
        assert(current[index as int] == base[index as int] || is_literal(current[index as int]));
        if current[index as int] != base[index as int] {
            lemma_more_fuel(base, rule, index, fuel, cap);
            lemma_known_is_value(base, values, rule, index, fuel);
        } else {
            match base[index as int] {
                ElementView::Node(NodeView::Instruction { operator, lhs, rhs }) => {
                    lemma_walk_refined(base, current, values, rule, cap, lhs, next);
                    lemma_walk_refined(base, current, values, rule, cap, rhs, next);
                },
                ElementView::Node(NodeView::Function { function, args }) => {
                    lemma_walk_all_refined(base, current, values, rule, cap, args, next);
                },
                _ => {},
            }
        }
    }
}

proof fn lemma_walk_all_refined<T: Function<LANES>, const LANES: usize>(
    base: Seq<ElementView<T, LANES>>,
    current: Seq<ElementView<T, LANES>>,
    values: Seq<Value<LANES>>,
    rule: spec_fn(FloatOp) -> u64,
    cap: nat,
    roots: Seq<usize>,
    fuel: nat,
)
    requires
        refines(base, current, rule, cap),
        !runs_out_any(base, roots, fuel),
        fuel < cap,
    ensures
        walk_all(current, values, rule, roots, fuel) == walk_all(base, values, rule, roots, fuel),
    decreases fuel, 1 + roots.len(),
{
    if roots.len() > 0 {
        lemma_walk_all_refined(base, current, values, rule, cap, roots.drop_last(), fuel);
        lemma_walk_refined(base, current, values, rule, cap, roots.last(), fuel);
    }
}

/// What `optimize` makes of a tree with the root `top`: the tree is folded
/// from the root down. A tree that is deeper than it has elements, as it is
/// where the links run in a circle, is left as it is.
pub open spec fn optimized<T: Function<LANES>, const LANES: usize>(
    elements: Seq<ElementView<T, LANES>>,
    rule: spec_fn(FloatOp) -> u64,
    top: usize,
) -> Seq<ElementView<T, LANES>> {
    if runs_out(elements, top, elements.len()) {
        elements
    } else {
        fold(elements, rule, top, elements.len()).elements
    }
}

/// `optimize` replaces elements by literals and does nothing else.
pub proof fn lemma_optimized_covers<T: Function<LANES>, const LANES: usize>(
    elements: Seq<ElementView<T, LANES>>,
    rule: spec_fn(FloatOp) -> u64,
    top: usize,
)
    ensures
        covers(elements, optimized(elements, rule, top)),
{
    lemma_fold_covers(elements, rule, top, elements.len());
}

/// `optimize` does not change the value of a formula: what `eval` returns
/// after it is what `eval` returns before it, whatever the variables hold.
pub proof fn lemma_optimize_keeps_value<T: Function<LANES>, const LANES: usize>(
    elements: Seq<ElementView<T, LANES>>,
    values: Seq<Value<LANES>>,
    rule: spec_fn(FloatOp) -> u64,
    top: usize,
)
    ensures
        optimized(elements, rule, top).len() == elements.len(),
        walk(optimized(elements, rule, top), values, rule, top, elements.len()) == walk(
            elements,
            values,
            rule,
            top,
            elements.len(),
        ),
{
    let fuel = elements.len();
    lemma_optimized_covers(elements, rule, top);
    if !runs_out(elements, top, fuel) {
        lemma_refines_itself(elements, rule, fuel);
        lemma_fold_refined(elements, elements, rule, fuel, top, fuel);
        lemma_walk_refined(
            elements,
            fold(elements, rule, top, fuel).elements,
            values,
            rule,
            fuel,
            top,
            fuel,
        );
    }
}

/// Calling `optimize` twice is calling it once: the second call leaves the
/// tree as the first call left it, and so `eval` returns the same after
/// either.
pub proof fn lemma_optimize_twice<T: Function<LANES>, const LANES: usize>(
    elements: Seq<ElementView<T, LANES>>,
    values: Seq<Value<LANES>>,
    rule: spec_fn(FloatOp) -> u64,
    top: usize,
)
    ensures
        ({
            let once = optimized(elements, rule, top);
            let twice = optimized(once, rule, top);
            &&& twice == once
            &&& walk(twice, values, rule, top, twice.len()) == walk(
                once,
                values,
                rule,
                top,
                once.len(),
            )
        }),
{
    let once = optimized(elements, rule, top);
    lemma_optimized_covers(elements, rule, top);
    if !runs_out(elements, top, elements.len()) {
        lemma_covers_runs_out(elements, once, top, elements.len());
        lemma_fold_twice(elements, rule, top, elements.len());
    }
}

} // verus!
