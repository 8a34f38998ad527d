//! Formulas in which operands and operators alternate: their linking is a
//! tree that holds every node once.
use super::arguments::{segment_upto, segmented};
use super::expression::{compiled, Compiled, MAX_NAMESPACES};
use super::function::Function;
use super::lexing::lexed;
use super::promotion::{promoted, Promotion};
use super::linking::{
    effective_weight, is_bracket, is_call, is_candidate, is_head, is_stop, least_between,
    left_bound, left_link, lemma_least, node_after, operand_after, operand_before, resolved,
    right_bound, right_link, root,
};
use super::node::NodeView;
use super::parse_element::ElementView;
use super::value::Value;
use super::walking::walk;
use crate::error::Error;
use crate::float::FloatOp;
use vstd::prelude::*;

verus! {

/// Whether an element is an operand by itself: a literal or a variable.
pub open spec fn is_atom<T, const LANES: usize>(element: ElementView<T, LANES>) -> bool {
    element is Node && (element->Node_0 is Literal || element->Node_0 is Variable)
}

/// What is due after the first `n` elements: an operand (`true`) or an
/// operator (`false`). Brackets change nothing; an operand is followed by an
/// operator and an operator by an operand; anything else, and anything out
/// of turn, leaves nothing due.
pub open spec fn turn<T, const LANES: usize>(
    elements: Seq<ElementView<T, LANES>>,
    n: int,
) -> Option<bool>
    decreases n,
{
    if n <= 0 {
        Some(true)
    } else {
        match turn(elements, n - 1) {
            None => None,
            Some(operand_due) => if is_bracket(elements[n - 1]) {
                Some(operand_due)
            } else if is_atom(elements[n - 1]) && operand_due {
                Some(false)
            } else if is_candidate(elements[n - 1]) && !operand_due {
                Some(true)
            } else {
                None
            },
        }
    }
}

/// Operands and operators alternate: the elements are literals, variables,
/// instructions and brackets; leaving the brackets out, they start with an
/// operand, every operand but the last is followed by an instruction, and
/// every instruction by an operand.
pub open spec fn alternating<T, const LANES: usize>(elements: Seq<ElementView<T, LANES>>) -> bool {
    turn(elements, elements.len() as int) == Some(false)
}

/// The places of the nodes between the places `lo` and `hi`, in their order.
pub open spec fn nodes_between<T, const LANES: usize>(
    elements: Seq<ElementView<T, LANES>>,
    lo: int,
    hi: int,
) -> Seq<int>
    decreases hi - lo,
{
    if hi <= lo + 1 {
        Seq::empty()
    } else if elements[hi - 1] is Node {
        nodes_between(elements, lo, hi - 1).push(hi - 1)
    } else {
        nodes_between(elements, lo, hi - 1)
    }
}

/// The places of the nodes of the tree under the element at `index`, as a
/// walk reaches them: the left operand, the instruction, the right operand.
pub open spec fn inorder<T, const LANES: usize>(
    elements: Seq<ElementView<T, LANES>>,
    index: usize,
    fuel: nat,
) -> Seq<int>
    decreases fuel,
{
    if fuel == 0 || index >= elements.len() {
        Seq::empty()
    } else {
        match elements[index as int] {
            ElementView::Node(NodeView::Instruction { lhs, rhs, .. }) => inorder(
                elements,
                lhs,
                (fuel - 1) as nat,
            ).push(index as int) + inorder(elements, rhs, (fuel - 1) as nat),
            ElementView::Node(_) => seq![index as int],
            ElementView::Token(_) => Seq::empty(),
        }
    }
}

/// The root of what stands between two places: the last instruction of
/// least weight, or the operand where there is no instruction.
pub open spec fn root_between<T, const LANES: usize>(
    elements: Seq<ElementView<T, LANES>>,
    lo: int,
    hi: int,
) -> usize {
    match least_between(elements, lo, hi) {
        Some(m) => m as usize,
        None => operand_after(elements, lo + 1),
    }
}

proof fn lemma_turn_prefix<T, const LANES: usize>(
    elements: Seq<ElementView<T, LANES>>,
    n: int,
    m: int,
)
    requires
        n <= m,
        turn(elements, m) is Some,
    ensures
        turn(elements, n) is Some,
    decreases m - n,
{
    if n < m {
        lemma_turn_prefix(elements, n, m - 1);
    }
}

/// In what is in turn, every element is a bracket, an operand or an
/// instruction, and an operand is due after an instruction and an operator
/// before it.
proof fn lemma_turn_step<T, const LANES: usize>(elements: Seq<ElementView<T, LANES>>, k: int, m: int)
    requires
        0 <= k < m,
        turn(elements, m) is Some,
    ensures
        turn(elements, k) is Some,
        turn(elements, k + 1) is Some,
        is_bracket(elements[k]) || is_atom(elements[k]) || is_candidate(elements[k]),
        is_stop(elements[k]) == is_candidate(elements[k]),
        is_head(elements[k]) == is_candidate(elements[k]),
        is_candidate(elements[k]) ==> turn(elements, k) == Some(false) && turn(elements, k + 1)
            == Some(true),
        is_atom(elements[k]) ==> turn(elements, k) == Some(true) && turn(elements, k + 1)
            == Some(false),
        is_bracket(elements[k]) ==> turn(elements, k + 1) == turn(elements, k),
{
    lemma_turn_prefix(elements, k + 1, m);
    lemma_turn_prefix(elements, k, m);
}

proof fn lemma_nodes_split<T, const LANES: usize>(
    elements: Seq<ElementView<T, LANES>>,
    lo: int,
    m: int,
    hi: int,
)
    requires
        lo < m < hi,
    ensures
        nodes_between(elements, lo, hi) == (if elements[m] is Node {
            nodes_between(elements, lo, m).push(m)
        } else {
            nodes_between(elements, lo, m)
        }) + nodes_between(elements, m, hi),
    decreases hi - m,
{
    let left = if elements[m] is Node {
        nodes_between(elements, lo, m).push(m)
    } else {
        nodes_between(elements, lo, m)
    };
    if hi == m + 1 {
        assert(nodes_between(elements, m, hi) =~= Seq::<int>::empty());
        assert(left + nodes_between(elements, m, hi) =~= left);
    } else {
        lemma_nodes_split(elements, lo, m, hi - 1);
        let right = nodes_between(elements, m, hi - 1);
        if elements[hi - 1] is Node {
            assert((left + right).push(hi - 1) =~= left + right.push(hi - 1));
        }
    }
}

proof fn lemma_nodes_none<T, const LANES: usize>(
    elements: Seq<ElementView<T, LANES>>,
    lo: int,
    hi: int,
)
    requires
        forall|k: int| lo < k < hi ==> !((#[trigger] elements[k]) is Node),
    ensures
        nodes_between(elements, lo, hi) == Seq::<int>::empty(),
    decreases hi - lo,
{
    if hi > lo + 1 {
        lemma_nodes_none(elements, lo, hi - 1);
    }
}

proof fn lemma_skip_back<T, const LANES: usize>(
    elements: Seq<ElementView<T, LANES>>,
    a: int,
    k: int,
)
    requires
        0 <= a <= k < elements.len() <= usize::MAX,
        !is_bracket(elements[a]),
        forall|j: int| a < j <= k ==> is_bracket(#[trigger] elements[j]),
    ensures
        operand_before(elements, k) == a,
    decreases k - a,
{
    if a < k {
        lemma_skip_back(elements, a, k - 1);
    }
}

/// After an operand, and before an operator is met, only brackets follow.
proof fn lemma_rest_brackets<T, const LANES: usize>(
    elements: Seq<ElementView<T, LANES>>,
    j: int,
    hi: int,
)
    requires
        0 <= j <= hi <= elements.len(),
        turn(elements, j) == Some(false),
        turn(elements, hi) is Some,
        forall|k: int| j <= k < hi ==> !is_candidate(#[trigger] elements[k]),
    ensures
        forall|k: int| j <= k < hi ==> is_bracket(#[trigger] elements[k]),
        turn(elements, hi) == Some(false),
    decreases hi - j,
{
    if j < hi {
        lemma_turn_step(elements, j, hi);
        assert(!is_candidate(elements[j]));
        lemma_rest_brackets(elements, j + 1, hi);
    }
}

/// Where an operand is due and no operator is met before an operator is
/// due, there is one operand, and brackets around it.
proof fn lemma_single_operand<T, const LANES: usize>(
    elements: Seq<ElementView<T, LANES>>,
    k: int,
    hi: int,
)
    requires
        0 <= k <= hi <= elements.len() <= usize::MAX,
        turn(elements, k) == Some(true),
        turn(elements, hi) == Some(false),
        forall|j: int| k <= j < hi ==> !is_candidate(#[trigger] elements[j]),
    ensures
        ({
            let a = operand_after(elements, k) as int;
            &&& k <= a < hi
            &&& is_atom(elements[a])
            &&& forall|j: int| k <= j < hi && j != a ==> is_bracket(#[trigger] elements[j])
            &&& operand_before(elements, hi - 1) == a
        }),
    decreases hi - k,
{
    if k < hi {
        lemma_turn_step(elements, k, hi);
        assert(!is_candidate(elements[k]));
        if is_bracket(elements[k]) {
            lemma_single_operand(elements, k + 1, hi);
        } else {
            lemma_rest_brackets(elements, k + 1, hi);
            lemma_skip_back(elements, k, hi - 1);
        }
    }
}

proof fn lemma_left_bound<T, const LANES: usize>(
    elements: Seq<ElementView<T, LANES>>,
    lo: int,
    k: int,
    w: int,
)
    requires
        -1 <= lo <= k < elements.len(),
        lo >= 0 ==> is_stop(elements[lo]) && effective_weight(elements, lo) < w,
        forall|j: int|
            lo < j <= k ==> !(is_stop(#[trigger] elements[j]) && effective_weight(elements, j) < w),
    ensures
        left_bound(elements, k, w) == lo,
    decreases k - lo,
{
    if lo < k {
        assert(!(is_stop(elements[k]) && effective_weight(elements, k) < w));
        lemma_left_bound(elements, lo, k - 1, w);
    }
}

proof fn lemma_right_bound<T, const LANES: usize>(
    elements: Seq<ElementView<T, LANES>>,
    k: int,
    hi: int,
    w: int,
)
    requires
        0 <= k <= hi <= elements.len(),
        hi < elements.len() ==> is_stop(elements[hi]) && effective_weight(elements, hi) <= w,
        forall|j: int|
            k <= j < hi ==> !(is_stop(#[trigger] elements[j]) && effective_weight(elements, j)
                <= w),
    ensures
        right_bound(elements, k, w) == hi,
    decreases hi - k,
{
    if k < hi {
        assert(!(is_stop(elements[k]) && effective_weight(elements, k) <= w));
        lemma_right_bound(elements, k + 1, hi, w);
    }
}

/// Every element of what alternates is a bracket, an operand or an
/// instruction, so that instructions alone end an operand.
proof fn lemma_plain<T, const LANES: usize>(elements: Seq<ElementView<T, LANES>>)
    requires
        alternating(elements),
    ensures
        forall|k: int|
            0 <= k < elements.len() ==> (is_stop(#[trigger] elements[k]) == is_candidate(
                elements[k],
            )) && (is_head(elements[k]) == is_candidate(elements[k])) && (elements[k] is Token
                ==> is_bracket(elements[k])),
{
    assert forall|k: int| 0 <= k < elements.len() implies (is_stop(#[trigger] elements[k])
        == is_candidate(elements[k])) && (is_head(elements[k]) == is_candidate(elements[k])) && (
    elements[k] is Token ==> is_bracket(elements[k])) by {
        lemma_turn_step(elements, k, elements.len() as int);
    }
}

/// The two operands of the root of what stands between two places reach as
/// far as the two places.
proof fn lemma_root_bounds<T, const LANES: usize>(
    elements: Seq<ElementView<T, LANES>>,
    lo: int,
    m: int,
    hi: int,
)
    requires
        alternating(elements),
        -1 <= lo < hi <= elements.len(),
        lo >= 0 ==> is_candidate(elements[lo]),
        hi < elements.len() ==> is_candidate(elements[hi]),
        forall|k: int|
            lo < k < hi && lo >= 0 && is_candidate(#[trigger] elements[k]) ==> effective_weight(
                elements,
                lo,
            ) < effective_weight(elements, k),
        forall|k: int|
            lo < k < hi && hi < elements.len() && is_candidate(#[trigger] elements[k])
                ==> effective_weight(elements, hi) <= effective_weight(elements, k),
        least_between(elements, lo, hi) == Some(m),
    ensures
        lo < m < hi,
        is_candidate(elements[m]),
        left_bound(elements, m - 1, effective_weight(elements, m)) == lo,
        right_bound(elements, m + 1, effective_weight(elements, m)) == hi,
        forall|k: int|
            lo < k < m && is_candidate(#[trigger] elements[k]) ==> effective_weight(elements, m)
                <= effective_weight(elements, k),
        forall|k: int|
            m < k < hi && is_candidate(#[trigger] elements[k]) ==> effective_weight(elements, m)
                < effective_weight(elements, k),
{
    lemma_plain(elements);
    lemma_least(elements, lo, hi);
    let w = effective_weight(elements, m);
    lemma_left_bound(elements, lo, m - 1, w);
    lemma_right_bound(elements, m + 1, hi, w);
}

/// No operator gives an `InvalidIndex`.
proof fn lemma_apply<const LANES: usize>(
    operator: super::enums::Operator,
    left: Value<LANES>,
    right: Value<LANES>,
    rule: spec_fn(FloatOp) -> u64,
)
    ensures
        operator.apply(left, right, rule) != Err::<Value<LANES>, Error>(Error::InvalidIndex),
{
}

/// The walk of the tree under an instruction reaches what the walks of its
/// operands reach, and the instruction between them.
proof fn lemma_join_order<T, const LANES: usize>(
    elements: Seq<ElementView<T, LANES>>,
    lo: int,
    m: int,
    hi: int,
    fuel: nat,
)
    requires
        -1 <= lo < m < hi <= elements.len() <= usize::MAX,
        fuel >= 1,
        is_candidate(elements[m]),
        inorder(resolved(elements), left_link(elements, m), (fuel - 1) as nat) == nodes_between(
            elements,
            lo,
            m,
        ),
        inorder(resolved(elements), right_link(elements, m), (fuel - 1) as nat) == nodes_between(
            elements,
            m,
            hi,
        ),
    ensures
        resolved(elements)[m] is Node,
        inorder(resolved(elements), m as usize, fuel) == nodes_between(elements, lo, hi),
{
    let after = resolved(elements);
    assert(after[m] == super::linking::linked(elements, m));
    lemma_nodes_split(elements, lo, m, hi);
    let left = inorder(after, left_link(elements, m), (fuel - 1) as nat);
    let right = inorder(after, right_link(elements, m), (fuel - 1) as nat);
    assert(inorder(after, m as usize, fuel) == left.push(m) + right);
}

/// The value of the tree under an instruction is no `InvalidIndex` if the
/// values of its operands are none.
proof fn lemma_join_walk<T: Function<LANES>, const LANES: usize>(
    elements: Seq<ElementView<T, LANES>>,
    values: Seq<Value<LANES>>,
    rule: spec_fn(FloatOp) -> u64,
    m: int,
    fuel: nat,
)
    requires
        0 <= m < elements.len() <= usize::MAX,
        fuel >= 1,
        is_candidate(elements[m]),
        walk(resolved(elements), values, rule, left_link(elements, m), (fuel - 1) as nat) != Err::<
            Value<LANES>,
            Error,
        >(Error::InvalidIndex),
        walk(resolved(elements), values, rule, right_link(elements, m), (fuel - 1) as nat)
            != Err::<Value<LANES>, Error>(Error::InvalidIndex),
    ensures
        walk(resolved(elements), values, rule, m as usize, fuel) != Err::<Value<LANES>, Error>(
            Error::InvalidIndex,
        ),
{
    let after = resolved(elements);
    assert(after[m] == super::linking::linked(elements, m));
    let operator = elements[m]->Node_0->Instruction_operator;
    let left = walk(after, values, rule, left_link(elements, m), (fuel - 1) as nat);
    let right = walk(after, values, rule, right_link(elements, m), (fuel - 1) as nat);
    if left is Ok && right is Ok {
        lemma_apply(operator, left.unwrap(), right.unwrap(), rule);
    }
}

/// The tree of one operand holds the operand.
proof fn lemma_leaf<T: Function<LANES>, const LANES: usize>(
    elements: Seq<ElementView<T, LANES>>,
    values: Seq<Value<LANES>>,
    rule: spec_fn(FloatOp) -> u64,
    lo: int,
    hi: int,
    fuel: nat,
)
    requires
        alternating(elements),
        elements.len() <= usize::MAX,
        -1 <= lo < hi <= elements.len(),
        turn(elements, lo + 1) == Some(true),
        turn(elements, hi) == Some(false),
        least_between(elements, lo, hi) is None,
        fuel >= 1,
    ensures
        ({
            let r = operand_after(elements, lo + 1);
            &&& lo < r < hi
            &&& is_atom(elements[r as int])
            &&& resolved(elements)[r as int] is Node
            &&& operand_before(elements, hi - 1) == r
            &&& inorder(resolved(elements), r, fuel) == nodes_between(elements, lo, hi)
            &&& walk(resolved(elements), values, rule, r, fuel) != Err::<Value<LANES>, Error>(
                Error::InvalidIndex,
            )
        }),
{
    lemma_plain(elements);
    lemma_least(elements, lo, hi);
    lemma_single_operand(elements, lo + 1, hi);
    let a = operand_after(elements, lo + 1) as int;
    assert(resolved(elements)[a] == super::linking::linked(elements, a));
    lemma_nodes_split(elements, lo, a, hi);
    lemma_nodes_none(elements, lo, a);
    lemma_nodes_none(elements, a, hi);
    assert(nodes_between(elements, lo, hi) =~= seq![a]);
}

/// What stands between two places that end an operand is linked into one
/// tree: the walk from its root reaches the nodes between the two places,
/// each once and in their order, and meets no place that is none.
proof fn lemma_operand<T: Function<LANES>, const LANES: usize>(
    elements: Seq<ElementView<T, LANES>>,
    values: Seq<Value<LANES>>,
    rule: spec_fn(FloatOp) -> u64,
    lo: int,
    hi: int,
    fuel: nat,
)
    requires
        alternating(elements),
        elements.len() <= usize::MAX,
        -1 <= lo < hi <= elements.len(),
        lo >= 0 ==> is_candidate(elements[lo]),
        hi < elements.len() ==> is_candidate(elements[hi]),
        forall|k: int|
            lo < k < hi && lo >= 0 && is_candidate(#[trigger] elements[k]) ==> effective_weight(
                elements,
                lo,
            ) < effective_weight(elements, k),
        forall|k: int|
            lo < k < hi && hi < elements.len() && is_candidate(#[trigger] elements[k])
                ==> effective_weight(elements, hi) <= effective_weight(elements, k),
        fuel >= hi - lo - 1,
    ensures
        lo < root_between(elements, lo, hi) < hi,
        resolved(elements)[root_between(elements, lo, hi) as int] is Node,
        least_between(elements, lo, hi) is None ==> operand_before(elements, hi - 1)
            == root_between(elements, lo, hi),
        inorder(resolved(elements), root_between(elements, lo, hi), fuel) == nodes_between(
            elements,
            lo,
            hi,
        ),
        walk(resolved(elements), values, rule, root_between(elements, lo, hi), fuel) != Err::<
            Value<LANES>,
            Error,
        >(Error::InvalidIndex),
        forall|k: int|
            lo < k < hi && is_candidate(#[trigger] elements[k]) ==> links_are_nodes(elements, k),
    decreases hi - lo,
{
    let len = elements.len() as int;
    if lo >= 0 {
        lemma_turn_step(elements, lo, len);
    }
    if hi < len {
        lemma_turn_step(elements, hi, len);
    }
    match least_between(elements, lo, hi) {
        Some(m) => {
            lemma_root_bounds(elements, lo, m, hi);
            lemma_operand(elements, values, rule, lo, m, (fuel - 1) as nat);
            lemma_operand(elements, values, rule, m, hi, (fuel - 1) as nat);
            assert(left_link(elements, m) == root_between(elements, lo, m));
            assert(right_link(elements, m) == root_between(elements, m, hi));
            lemma_join_order(elements, lo, m, hi, fuel);
            lemma_join_walk(elements, values, rule, m, fuel);
            assert(links_are_nodes(elements, m)) by {
                let l = root_between(elements, lo, m) as int;
                let r = root_between(elements, m, hi) as int;
                assert(resolved(elements)[l] == super::linking::linked(elements, l));
                assert(resolved(elements)[r] == super::linking::linked(elements, r));
            }
        },
        None => {
            lemma_least(elements, lo, hi);
            lemma_plain(elements);
            lemma_leaf(elements, values, rule, lo, hi, fuel);
        },
    }
}

/// Both operands of the instruction at the place `k` are nodes.
pub open spec fn links_are_nodes<T, const LANES: usize>(
    elements: Seq<ElementView<T, LANES>>,
    k: int,
) -> bool {
    &&& left_link(elements, k) < elements.len()
    &&& elements[left_link(elements, k) as int] is Node
    &&& right_link(elements, k) < elements.len()
    &&& elements[right_link(elements, k) as int] is Node
}

proof fn lemma_first_node<T, const LANES: usize>(elements: Seq<ElementView<T, LANES>>, k: int)
    requires
        0 <= k <= elements.len(),
        forall|j: int|
            0 <= j < elements.len() ==> ((#[trigger] elements[j]) is Token ==> is_bracket(
                elements[j],
            )),
    ensures
        node_after(elements, k) == operand_after(elements, k),
    decreases elements.len() - k,
{
    if k < elements.len() {
        if elements[k] is Token {
            lemma_first_node(elements, k + 1);
        }
    }
}

/// A formula in which operands and operators alternate is linked into one
/// tree, wherever its brackets stand.
///
/// - The root and both operands of every instruction are nodes.
/// - The walk from the root reaches every node of the formula once, in the
///   order in which the formula holds them.
/// - The value of the tree is never an `InvalidIndex`.
pub proof fn lemma_alternating_tree<T: Function<LANES>, const LANES: usize>(
    elements: Seq<ElementView<T, LANES>>,
    values: Seq<Value<LANES>>,
    rule: spec_fn(FloatOp) -> u64,
)
    requires
        alternating(elements),
        elements.len() <= usize::MAX,
    ensures
        root(elements) < elements.len(),
        resolved(elements)[root(elements) as int] is Node,
        forall|k: int|
            0 <= k < elements.len() && is_candidate(#[trigger] elements[k]) ==> links_are_nodes(
                elements,
                k,
            ),
        inorder(resolved(elements), root(elements), elements.len()) == nodes_between(
            elements,
            -1,
            elements.len() as int,
        ),
        walk(resolved(elements), values, rule, root(elements), elements.len()) != Err::<
            Value<LANES>,
            Error,
        >(Error::InvalidIndex),
{
    let len = elements.len() as int;
    assert(len > 0) by {
        if len == 0 {
            assert(turn(elements, 0) == Some(true));
        }
    }
    lemma_plain(elements);
    lemma_first_node(elements, 0);
    lemma_operand(elements, values, rule, -1, len, elements.len());
}

/// Linking what alternates leaves no call without its arguments, for there
/// is no call: the linked elements are the compiled elements.
pub proof fn lemma_alternating_segmented<T, const LANES: usize>(
    elements: Seq<ElementView<T, LANES>>,
    capacity: nat,
)
    requires
        alternating(elements),
    ensures
        segmented(resolved(elements), capacity) == Ok::<Seq<ElementView<T, LANES>>, Error>(
            resolved(elements),
        ),
        nodes_between(resolved(elements), -1, elements.len() as int) == nodes_between(
            elements,
            -1,
            elements.len() as int,
        ),
{
    let linked = resolved(elements);
    lemma_plain(elements);
    assert forall|k: int| 0 <= k < linked.len() implies !is_call(#[trigger] linked[k]) by {
        assert(linked[k] == super::linking::linked(elements, k));
        assert(is_head(elements[k]) == is_candidate(elements[k]));
    }
    lemma_no_calls(linked, linked.len(), capacity);
    assert forall|k: int| 0 <= k < linked.len() implies (#[trigger] linked[k]) is Node
        == elements[k] is Node by {
        assert(linked[k] == super::linking::linked(elements, k));
    }
    lemma_same_nodes(elements, linked, -1, linked.len() as int);
}

/// A formula without calls in which operands and operators alternate has a
/// value or an error of its operators, never an `InvalidIndex`: it is
/// compiled into the tree of its linking, and the walk from the root reaches
/// every node of it once.
pub proof fn lemma_compiled_alternating<T: Function<LANES>, const LANES: usize>(
    source: Seq<u8>,
    reading: spec_fn(Seq<u8>) -> Option<u64>,
    elements: Seq<ElementView<T, LANES>>,
    names: Seq<Seq<u8>>,
    values: Seq<Value<LANES>>,
    rule: spec_fn(FloatOp) -> u64,
)
    requires
        source.len() > 0,
        lexed::<T, LANES>(source) is Ok,
        promoted::<T, LANES>(
            lexed::<T, LANES>(source).unwrap(),
            Seq::empty(),
            source,
            reading,
            MAX_NAMESPACES as nat,
        ) == Ok::<Promotion<T, LANES>, Error>(
            Promotion { elements, names, namespaces: Seq::empty() },
        ),
        alternating(elements),
        elements.len() <= usize::MAX,
    ensures
        compiled::<T, LANES>(source, reading) == Ok::<Compiled<T, LANES>, Error>(
            Compiled { elements: resolved(elements), names, top: root(elements) },
        ),
        root(elements) < elements.len(),
        resolved(elements)[root(elements) as int] is Node,
        walk(resolved(elements), values, rule, root(elements), elements.len()) != Err::<
            Value<LANES>,
            Error,
        >(Error::InvalidIndex),
        inorder(resolved(elements), root(elements), elements.len()) == nodes_between(
            resolved(elements),
            -1,
            elements.len() as int,
        ),
{
    lemma_alternating_tree(elements, values, rule);
    lemma_alternating_segmented(elements, T::capacity());
}

/// Giving calls their arguments changes nothing where there is no call.
proof fn lemma_no_calls<T, const LANES: usize>(
    elements: Seq<ElementView<T, LANES>>,
    n: nat,
    capacity: nat,
)
    requires
        n <= elements.len(),
        forall|k: int| 0 <= k < elements.len() ==> !is_call(#[trigger] elements[k]),
    ensures
        segment_upto(elements, n, capacity) == Ok::<Seq<ElementView<T, LANES>>, Error>(elements),
    decreases n,
{
    if n > 0 {
        lemma_no_calls(elements, (n - 1) as nat, capacity);
        assert(!is_call(elements[n - 1]));
    }
}

proof fn lemma_same_nodes<T, const LANES: usize>(
    a: Seq<ElementView<T, LANES>>,
    b: Seq<ElementView<T, LANES>>,
    lo: int,
    hi: int,
)
    requires
        a.len() == b.len(),
        -1 <= lo,
        hi <= a.len(),
        forall|k: int| 0 <= k < a.len() ==> (#[trigger] b[k]) is Node == a[k] is Node,
    ensures
        nodes_between(a, lo, hi) == nodes_between(b, lo, hi),
    decreases hi - lo,
{
    if hi > lo + 1 {
        lemma_same_nodes(a, b, lo, hi - 1);
        assert(b[hi - 1] is Node == a[hi - 1] is Node);
    }
}

} // verus!
