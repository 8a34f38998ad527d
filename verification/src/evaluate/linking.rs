//! The linking of instructions into a tree by their weights.
use super::enums::{Special, TokenKind};
use super::expression::Expression;
use super::function::Function;
use super::node::{Node, NodeView};
use super::parse_element::{views, ElementView, ParseElement};
use vstd::prelude::*;

verus! {

/// How tightly a call binds: tighter than every operator.
pub const CALL_WEIGHT: i16 = 50;

/// Whether an element is linked to operands: an instruction is.
pub open spec fn is_candidate<T, const LANES: usize>(element: ElementView<T, LANES>) -> bool {
    element is Node && element->Node_0 is Instruction
}

/// Whether an element is a call. A call with the brackets of its arguments
/// is an operand.
pub open spec fn is_call<T, const LANES: usize>(element: ElementView<T, LANES>) -> bool {
    element is Node && element->Node_0 is Function
}

/// Whether an element can be the root of an operand that holds more than
/// one element: an instruction can, and a call.
pub open spec fn is_head<T, const LANES: usize>(element: ElementView<T, LANES>) -> bool {
    is_candidate(element) || is_call(element)
}

/// Whether an element is a bracket.
pub open spec fn is_bracket<T, const LANES: usize>(element: ElementView<T, LANES>) -> bool {
    element is Token && element->Token_0.token_kind is Bracket
}

/// Whether an element can end an operand: an instruction, a call and a
/// comma can.
pub open spec fn is_stop<T, const LANES: usize>(element: ElementView<T, LANES>) -> bool {
    is_head(element) || (element is Token && element->Token_0.token_kind == TokenKind::Special(
        Special::Comma,
    ))
}

/// By how much an element shifts the weight of what follows it: a bracket
/// does, nothing else.
pub open spec fn shift_of<T, const LANES: usize>(element: ElementView<T, LANES>) -> int {
    match element {
        ElementView::Token(token) => match token.token_kind {
            TokenKind::Bracket(bracket) => bracket.shift(),
            _ => 0,
        },
        ElementView::Node(_) => 0,
    }
}

/// The sum of the shifts of the brackets before the place `i`.
pub open spec fn bracket_offset<T, const LANES: usize>(
    elements: Seq<ElementView<T, LANES>>,
    i: int,
) -> int
    decreases i,
{
    if i <= 0 {
        0
    } else {
        bracket_offset(elements, i - 1) + shift_of(elements[i - 1])
    }
}

/// How tightly an element binds by itself: an instruction by the weight of
/// its operator, a call tighter than every operator, and nothing else at
/// all.
pub open spec fn binding_of<T, const LANES: usize>(element: ElementView<T, LANES>) -> int {
    match element {
        ElementView::Node(NodeView::Instruction { operator, .. }) => operator.binding(),
        ElementView::Node(NodeView::Function { .. }) => CALL_WEIGHT as int,
        _ => 0,
    }
}

/// The weight of the element at the place `i`: its own, and the offset of
/// the brackets that it stands in.
///
/// So a call weighs more than every instruction outside its brackets and
/// less than every instruction within them, and a comma weighs less than
/// every instruction between the brackets that it stands in.
pub open spec fn effective_weight<T, const LANES: usize>(
    elements: Seq<ElementView<T, LANES>>,
    i: int,
) -> int {
    binding_of(elements[i]) + bracket_offset(elements, i)
}

/// The nearest place at or before `k` where an operand of the weight `w`
/// ends to the left: the place of an instruction, call or comma that weighs
/// less than `w`. Where there is none, the place before the first.
pub open spec fn left_bound<T, const LANES: usize>(
    elements: Seq<ElementView<T, LANES>>,
    k: int,
    w: int,
) -> int
    decreases k + 1,
{
    if k < 0 {
        -1
    } else if is_stop(elements[k]) && effective_weight(elements, k) < w {
        k
    } else {
        left_bound(elements, k - 1, w)
    }
}

/// The nearest place at or after `k` where an operand of the weight `w`
/// ends to the right: the place of an instruction, call or comma that weighs
/// no more than `w`. Where there is none, the place after the last.
pub open spec fn right_bound<T, const LANES: usize>(
    elements: Seq<ElementView<T, LANES>>,
    k: int,
    w: int,
) -> int
    decreases elements.len() - k,
{
    if k >= elements.len() {
        elements.len() as int
    } else if k >= 0 && is_stop(elements[k]) && effective_weight(elements, k) <= w {
        k
    } else {
        right_bound(elements, k + 1, w)
    }
}

/// The instruction or call of least weight between the places `lo` and `hi`,
/// and of several the last.
pub open spec fn least_between<T, const LANES: usize>(
    elements: Seq<ElementView<T, LANES>>,
    lo: int,
    hi: int,
) -> Option<int>
    decreases hi - lo,
{
    if hi <= lo + 1 {
        None
    } else {
        let rest = least_between(elements, lo, hi - 1);
        if is_head(elements[hi - 1]) && (rest is None || effective_weight(
            elements,
            rest.unwrap(),
        ) >= effective_weight(elements, hi - 1)) {
            Some(hi - 1)
        } else {
            rest
        }
    }
}

/// The nearest place at or before `k` that holds no bracket. Where there is
/// none, a place that lies outside every array.
pub open spec fn operand_before<T, const LANES: usize>(
    elements: Seq<ElementView<T, LANES>>,
    k: int,
) -> usize
    decreases k + 1,
{
    if k < 0 || k >= elements.len() {
        usize::MAX
    } else if is_bracket(elements[k]) {
        operand_before(elements, k - 1)
    } else {
        k as usize
    }
}

/// The nearest place at or after `k` that holds no bracket. Where there is
/// none, the place after the last.
pub open spec fn operand_after<T, const LANES: usize>(
    elements: Seq<ElementView<T, LANES>>,
    k: int,
) -> usize
    decreases elements.len() - k,
{
    if k < 0 || k >= elements.len() {
        elements.len() as usize
    } else if is_bracket(elements[k]) {
        operand_after(elements, k + 1)
    } else {
        k as usize
    }
}

/// The nearest place at or after `k` that holds a node. Where there is none,
/// the place after the last.
pub open spec fn node_after<T, const LANES: usize>(
    elements: Seq<ElementView<T, LANES>>,
    k: int,
) -> usize
    decreases elements.len() - k,
{
    if k < 0 || k >= elements.len() {
        elements.len() as usize
    } else if elements[k] is Token {
        node_after(elements, k + 1)
    } else {
        k as usize
    }
}

/// The left operand of the instruction at the place `i`: the root of what
/// stands between the instruction and the nearest instruction, call or comma
/// to its left that weighs less. That root is the last instruction or call
/// of least weight there; where there is none, it is the element next to the
/// instruction, the brackets left out.
///
/// An instruction of the same weight to the left belongs to the left
/// operand: operators of one weight group from the left.
pub open spec fn left_link<T, const LANES: usize>(
    elements: Seq<ElementView<T, LANES>>,
    i: int,
) -> usize {
    let bound = left_bound(elements, i - 1, effective_weight(elements, i));
    match least_between(elements, bound, i) {
        Some(m) => m as usize,
        None => operand_before(elements, i - 1),
    }
}

/// The right operand of the instruction at the place `i`: the root of what
/// stands between the instruction and the nearest instruction, call or comma
/// to its right that weighs no more.
pub open spec fn right_link<T, const LANES: usize>(
    elements: Seq<ElementView<T, LANES>>,
    i: int,
) -> usize {
    let bound = right_bound(elements, i + 1, effective_weight(elements, i));
    match least_between(elements, i, bound) {
        Some(m) => m as usize,
        None => operand_after(elements, i + 1),
    }
}

/// The element at the place `i` after linking: an instruction has its two
/// operands, anything else is as before.
pub open spec fn linked<T, const LANES: usize>(
    elements: Seq<ElementView<T, LANES>>,
    i: int,
) -> ElementView<T, LANES> {
    match elements[i] {
        ElementView::Node(NodeView::Instruction { operator, .. }) => ElementView::Node(
            NodeView::Instruction {
                operator,
                lhs: left_link(elements, i),
                rhs: right_link(elements, i),
            },
        ),
        other => other,
    }
}

/// The elements after linking.
pub open spec fn resolved<T, const LANES: usize>(elements: Seq<ElementView<T, LANES>>) -> Seq<
    ElementView<T, LANES>,
> {
    Seq::new(elements.len(), |i: int| linked(elements, i))
}

/// The root of the tree: the last instruction or call of least weight, which
/// is worked out last. Where there is neither, the root is the first node.
pub open spec fn root<T, const LANES: usize>(elements: Seq<ElementView<T, LANES>>) -> usize {
    match least_between(elements, -1, elements.len() as int) {
        Some(i) => i as usize,
        None => node_after(elements, 0),
    }
}

/// The least between two places is an instruction or a call between them
/// that weighs no more than any other there, and less than every one after
/// it.
pub proof fn lemma_least<T, const LANES: usize>(
    elements: Seq<ElementView<T, LANES>>,
    lo: int,
    hi: int,
)
    requires
        -1 <= lo,
        hi <= elements.len(),
    ensures
        match least_between(elements, lo, hi) {
            Some(m) => lo < m < hi && is_head(elements[m]) && (forall|k: int|
                lo < k < hi && is_head(#[trigger] elements[k]) ==> effective_weight(elements, m)
                    <= effective_weight(elements, k)) && (forall|k: int|
                m < k < hi && is_head(#[trigger] elements[k]) ==> effective_weight(elements, m)
                    < effective_weight(elements, k)),
            None => forall|k: int| lo < k < hi ==> !is_head(#[trigger] elements[k]),
        },
    decreases hi - lo,
{
    if hi > lo + 1 {
        lemma_least(elements, lo, hi - 1);
    }
}

/// The least between two places, with one more place in front.
pub proof fn lemma_least_prepend<T, const LANES: usize>(
    elements: Seq<ElementView<T, LANES>>,
    lo: int,
    hi: int,
)
    requires
        0 <= lo < hi <= elements.len(),
    ensures
        least_between(elements, lo - 1, hi) == ({
            let rest = least_between(elements, lo, hi);
            if is_head(elements[lo]) && (rest is None || effective_weight(elements, lo)
                < effective_weight(elements, rest.unwrap())) {
                Some(lo)
            } else {
                rest
            }
        }),
    decreases hi - lo,
{
    if hi > lo + 1 {
        lemma_least_prepend(elements, lo, hi - 1);
        lemma_least(elements, lo, hi - 1);
    } else {
        assert(least_between(elements, lo - 1, lo) is None);
    }
}

/// Each element shifts the offset by a hundred at most.
pub proof fn lemma_offset_bounds<T, const LANES: usize>(
    elements: Seq<ElementView<T, LANES>>,
    i: int,
)
    requires
        0 <= i <= elements.len(),
    ensures
        -100 * i <= bracket_offset(elements, i) <= 100 * i,
    decreases i,
{
    if i > 0 {
        lemma_offset_bounds(elements, i - 1);
    }
}

/// What stands within a bracket weighs more than what stands outside it,
/// whatever the operators: an instruction that has at least one more bracket
/// open around it than another weighs more than that one.
pub proof fn lemma_brackets_dominate<T, const LANES: usize>(
    elements: Seq<ElementView<T, LANES>>,
    inner: int,
    outer: int,
)
    requires
        0 <= inner < elements.len(),
        0 <= outer < elements.len(),
        is_candidate(elements[inner]),
        bracket_offset(elements, inner) >= bracket_offset(elements, outer) + 100,
    ensures
        effective_weight(elements, inner) > effective_weight(elements, outer),
{
    match elements[inner] {
        ElementView::Node(NodeView::Instruction { operator, .. }) => {
            super::enums::lemma_weight_bands(operator, operator);
        },
        _ => {},
    }
    match elements[outer] {
        ElementView::Node(NodeView::Instruction { operator, .. }) => {
            super::enums::lemma_weight_bands(operator, operator);
        },
        _ => {},
    }
}

/// A call is an operand among what stands around it and the root of what
/// stands within it: it weighs more than every instruction that has no more
/// brackets open around it than the call, and less than every instruction
/// that has one more.
pub proof fn lemma_call_weight<T, const LANES: usize>(
    elements: Seq<ElementView<T, LANES>>,
    call: int,
    instruction: int,
)
    requires
        0 <= call < elements.len(),
        0 <= instruction < elements.len(),
        is_call(elements[call]),
        is_candidate(elements[instruction]),
    ensures
        bracket_offset(elements, instruction) <= bracket_offset(elements, call)
            ==> effective_weight(elements, instruction) < effective_weight(elements, call),
        bracket_offset(elements, instruction) >= bracket_offset(elements, call) + 100
            ==> effective_weight(elements, instruction) > effective_weight(elements, call),
{
    match elements[instruction] {
        ElementView::Node(NodeView::Instruction { operator, .. }) => {
            super::enums::lemma_weight_bands(operator, operator);
        },
        _ => {},
    }
}

/// A comma ends the operands on its two sides: it weighs less than every
/// instruction and every call that has as many brackets open around it as
/// the comma, or more.
pub proof fn lemma_comma_weight<T, const LANES: usize>(
    elements: Seq<ElementView<T, LANES>>,
    comma: int,
    head: int,
)
    requires
        0 <= comma < elements.len(),
        0 <= head < elements.len(),
        elements[comma] is Token,
        is_head(elements[head]),
        bracket_offset(elements, head) >= bracket_offset(elements, comma),
    ensures
        effective_weight(elements, comma) < effective_weight(elements, head),
{
    match elements[head] {
        ElementView::Node(NodeView::Instruction { operator, .. }) => {
            super::enums::lemma_weight_bands(operator, operator);
        },
        _ => {},
    }
}

impl<T: Function<LANES>, const LANES: usize> Expression<T, LANES> {
    /// What the element at `k` is to linking: whether it is a bracket,
    /// whether it can end an operand, whether it can be the root of one,
    /// whether it is an instruction, how tightly it binds, and by how much
    /// it shifts the weights behind it.
    fn shape(elements: &Vec<ParseElement<T, LANES>>, k: usize) -> (r: (
        bool,
        bool,
        bool,
        bool,
        i16,
        i16,
    ))
        requires
            k < elements@.len(),
        ensures
            r.0 == is_bracket(views(elements@)[k as int]),
            r.1 == is_stop(views(elements@)[k as int]),
            r.2 == is_head(views(elements@)[k as int]),
            r.3 == is_candidate(views(elements@)[k as int]),
            r.4 == binding_of(views(elements@)[k as int]),
            r.5 == shift_of(views(elements@)[k as int]),
            0 <= r.4 <= 50,
            -100 <= r.5 <= 100,
    {
        match &elements[k] {
            ParseElement::Token(token) => match token.kind() {
                TokenKind::Bracket(bracket) => (true, false, false, false, 0, bracket.weight()),
                TokenKind::Special(Special::Comma) => (false, true, false, false, 0, 0),
                _ => (false, false, false, false, 0, 0),
            },
            ParseElement::Node(node) => match node {
                Node::Instruction { operator, .. } => (
                    false,
                    true,
                    true,
                    true,
                    operator.weight(),
                    0,
                ),
                Node::Function { .. } => (false, true, true, false, CALL_WEIGHT, 0),
                _ => (false, false, false, false, 0, 0),
            },
        }
    }

    /// Finds the left operand of the instruction at `i`.
    fn find_left(elements: &Vec<ParseElement<T, LANES>>, i: usize, offset: i128) -> (lhs: usize)
        requires
            i < elements@.len(),
            offset == bracket_offset(views(elements@), i as int),
        ensures
            lhs == left_link(views(elements@), i as int),
    {
        let ghost es = views(elements@);
        proof {
            lemma_offset_bounds(es, i as int);
        }
        let weight = Self::shape(elements, i).4 as i128 + offset;
        let mut best: Option<(usize, i128)> = None;
        let mut k: usize = i;
        let mut off: i128 = offset;
        let mut done = false;
        while k > 0 && !done
            invariant
                k <= i < elements@.len(),
                es == views(elements@),
                weight == effective_weight(es, i as int),
                off == bracket_offset(es, k as int),
                !done ==> left_bound(es, i - 1, weight as int) == left_bound(
                    es,
                    k - 1,
                    weight as int,
                ),
                done ==> left_bound(es, i - 1, weight as int) == k - 1,
                match best {
                    Some((m, w)) => least_between(es, k - 1, i as int) == Some(m as int) && w
                        == effective_weight(es, m as int),
                    None => least_between(es, k - 1, i as int) is None,
                },
            decreases (if done { 0int } else { k + 1 }),
        {
            let p = k - 1;
            proof {
                lemma_offset_bounds(es, k as int);
                lemma_offset_bounds(es, p as int);
            }
            let (_, stop, head, _, binding, shift) = Self::shape(elements, p);
            let here = off - shift as i128;
            let w = binding as i128 + here;
            if stop && w < weight {
                done = true;
            } else {
                proof {
                    lemma_least_prepend(es, p as int, i as int);
                }
                if head {
                    let less = match best {
                        Some((_, found)) => w < found,
                        None => true,
                    };
                    if less {
                        best = Some((p, w));
                    }
                }
                k = p;
                off = here;
            }
        }
        match best {
            Some((m, _)) => m,
            None => {
                assert(left_link(es, i as int) == operand_before(es, i - 1));
                let mut j: usize = i;
                while j > 0
                    invariant
                        j <= i < elements@.len(),
                        es == views(elements@),
                        left_link(es, i as int) == operand_before(es, i - 1),
                        operand_before(es, i - 1) == operand_before(es, j - 1),
                    decreases j,
                {
                    let bracket = Self::shape(elements, j - 1).0;
                    if !bracket {
                        return j - 1;
                    }
                    j -= 1;
                }
                usize::MAX
            },
        }
    }

    /// Finds the right operand of the instruction at `i`.
    fn find_right(elements: &Vec<ParseElement<T, LANES>>, i: usize, offset: i128) -> (rhs: usize)
        requires
            i < elements@.len(),
            is_candidate(views(elements@)[i as int]),
            offset == bracket_offset(views(elements@), i as int),
        ensures
            rhs == right_link(views(elements@), i as int),
    {
        let ghost es = views(elements@);
        let len = elements.len();
        proof {
            lemma_offset_bounds(es, i as int);
        }
        let weight = Self::shape(elements, i).4 as i128 + offset;
        let mut best: Option<(usize, i128)> = None;
        let mut k: usize = i + 1;
        let mut off: i128 = offset;
        let mut done = false;
        while k < len && !done
            invariant
                i < k <= len,
                len == elements@.len(),
                es == views(elements@),
                weight == effective_weight(es, i as int),
                off == bracket_offset(es, k as int),
                right_bound(es, i + 1, weight as int) == right_bound(es, k as int, weight as int),
                done ==> right_bound(es, k as int, weight as int) == k,
                match best {
                    Some((m, w)) => least_between(es, i as int, k as int) == Some(m as int) && w
                        == effective_weight(es, m as int),
                    None => least_between(es, i as int, k as int) is None,
                },
            decreases (if done { 0int } else { len - k + 1 }),
        {
            proof {
                lemma_offset_bounds(es, k as int);
                lemma_offset_bounds(es, k + 1);
            }
            let (_, stop, head, _, binding, shift) = Self::shape(elements, k);
            let w = binding as i128 + off;
            if stop && w <= weight {
                done = true;
            } else {
                if head {
                    let lower = match best {
                        Some((_, found)) => found >= w,
                        None => true,
                    };
                    if lower {
                        best = Some((k, w));
                    }
                }
                off = off + shift as i128;
                k = k + 1;
            }
        }
        match best {
            Some((m, _)) => m,
            None => {
                assert(right_link(es, i as int) == operand_after(es, i + 1));
                let mut j: usize = i + 1;
                while j < len
                    invariant
                        i < j <= len,
                        len == elements@.len(),
                        es == views(elements@),
                        right_link(es, i as int) == operand_after(es, i + 1),
                        operand_after(es, i + 1) == operand_after(es, j as int),
                    decreases len - j,
                {
                    let bracket = Self::shape(elements, j).0;
                    if !bracket {
                        return j;
                    }
                    j += 1;
                }
                len
            },
        }
    }

    /// Links the instructions into a tree and finds its root.
    ///
    /// An operand of an instruction reaches as far as the operators around
    /// it bind tighter than the instruction. Its root is the instruction in
    /// it that binds least, and of several the last; an operand without an
    /// instruction is a call, a literal or a variable.
    pub(crate) fn set_indices(elements: &mut Vec<ParseElement<T, LANES>>) -> (top: usize)
        ensures
            views(final(elements)@) == resolved(views(old(elements)@)),
            top == root(views(old(elements)@)),
    {
        let ghost before = views(elements@);
        let len = elements.len();
        let mut links: Vec<(usize, usize)> = Vec::new();
        let mut offset: i128 = 0;
        let mut low: Option<(usize, i128)> = None;
        let mut i: usize = 0;
        while i < len
            invariant
                i <= len,
                len == elements@.len(),
                before == views(elements@),
                before == views(old(elements)@),
                links@.len() == i,
                offset == bracket_offset(before, i as int),
                match low {
                    Some((m, w)) => least_between(before, -1, i as int) == Some(m as int) && w
                        == effective_weight(before, m as int),
                    None => least_between(before, -1, i as int) is None,
                },
                forall|k: int|
                    0 <= k < i && is_candidate(before[k]) ==> (#[trigger] links@[k]) == (
                        left_link(before, k),
                        right_link(before, k),
                    ),
            decreases len - i,
        {
            proof {
                lemma_offset_bounds(before, i as int);
                lemma_offset_bounds(before, i + 1);
            }
            let (_, _, head, candidate, binding, shift) = Self::shape(elements, i);
            let w = binding as i128 + offset;
            if candidate {
                let lhs = Self::find_left(elements, i, offset);
                let rhs = Self::find_right(elements, i, offset);
                links.push((lhs, rhs));
            } else {
                links.push((0, 0));
            }
            if head {
                let lower = match low {
                    Some((_, found)) => found >= w,
                    None => true,
                };
                if lower {
                    low = Some((i, w));
                }
            }
            offset = offset + shift as i128;
            i += 1;
        }
        let mut i: usize = 0;
        while i < len
            invariant
                i <= len,
                len == elements@.len(),
                len == before.len(),
                before == views(old(elements)@),
                links@.len() == len,
                match low {
                    Some((m, w)) => root(before) == m,
                    None => least_between(before, -1, len as int) is None,
                },
                forall|k: int|
                    0 <= k < len && is_candidate(before[k]) ==> (#[trigger] links@[k]) == (
                        left_link(before, k),
                        right_link(before, k),
                    ),
                forall|k: int| 0 <= k < i ==> views(elements@)[k] == linked(before, k),
                forall|k: int| i <= k < len ==> views(elements@)[k] == before[k],
            decreases len - i,
        {
            let found = match &elements[i] {
                ParseElement::Node(Node::Instruction { operator, .. }) => Some(*operator),
                _ => None,
            };
            assert(views(elements@)[i as int] == before[i as int]);
            if let Some(operator) = found {
                let (lhs, rhs) = links[i];
                Self::set_node(elements, i, Node::Instruction { operator, lhs, rhs });
            }
            i += 1;
        }
        assert(views(elements@) =~= resolved(before));
        match low {
            Some((m, _)) => m,
            None => {
                assert(root(before) == node_after(before, 0));
                let mut j: usize = 0;
                while j < len
                    invariant
                        j <= len,
                        len == elements@.len(),
                        len == before.len(),
                        before == views(old(elements)@),
                        views(elements@) == resolved(before),
                        root(before) == node_after(before, 0),
                        node_after(before, 0) == node_after(before, j as int),
                        forall|k: int| 0 <= k < len ==> (#[trigger] views(elements@)[k]) is Token
                            == before[k] is Token,
                    decreases len - j,
                {
                    let token = match &elements[j] {
                        ParseElement::Token(_) => true,
                        ParseElement::Node(_) => false,
                    };
                    assert(views(elements@)[j as int] is Token == token);
                    if !token {
                        return j;
                    }
                    j += 1;
                }
                len
            },
        }
    }
}

} // verus!
