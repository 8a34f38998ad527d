//! The arguments of calls: which elements between the brackets of a call
//! are the roots of its arguments.
use super::enums::{Bracket, Special, TokenKind};
use super::expression::Expression;
use super::function::Function;
use super::linking::CALL_WEIGHT;
use super::node::{Node, NodeView};
use super::parse_element::{views, ElementView, ParseElement};
use crate::error::Error;
use vstd::prelude::*;

verus! {

/// What an element is to the search for the arguments of a call.
pub enum Shape {
    /// An opening bracket.
    Open,
    /// A closing bracket.
    Close,
    /// A comma.
    Comma,
    /// An instruction or a call, which binds by its weight; a call binds
    /// tighter than every operator.
    Weighted(int),
    /// A literal or a variable.
    Atom,
    /// Any other token.
    Other,
}

/// What an element is to the search.
pub open spec fn shape_of<T, const LANES: usize>(element: ElementView<T, LANES>) -> Shape {
    match element {
        ElementView::Token(token) => match token.token_kind {
            TokenKind::Bracket(Bracket::Opened) => Shape::Open,
            TokenKind::Bracket(Bracket::Closed) => Shape::Close,
            TokenKind::Special(Special::Comma) => Shape::Comma,
            _ => Shape::Other,
        },
        ElementView::Node(node) => match node {
            NodeView::Instruction { operator, .. } => Shape::Weighted(operator.binding()),
            NodeView::Function { .. } => Shape::Weighted(CALL_WEIGHT as int),
            _ => Shape::Atom,
        },
    }
}

/// What the elements are to the search, place by place.
pub open spec fn shapes<T, const LANES: usize>(elements: Seq<ElementView<T, LANES>>) -> Seq<Shape> {
    Seq::new(elements.len(), |i: int| shape_of(elements[i]))
}

/// How far the search for the arguments of one call has come.
pub struct Scan {
    /// How many brackets are open, that of the call among them.
    pub depth: int,
    /// The root of the argument that is being read, as far as it is known.
    pub best: Option<int>,
    /// The weight of that root, if it binds by a weight.
    pub weight: Option<int>,
    /// The roots of the arguments that have been read.
    pub args: Seq<usize>,
    /// Whether the bracket of the call has been closed.
    pub done: bool,
}

/// The start of a search.
pub open spec fn scan_start() -> Scan {
    Scan { depth: 0, best: None, weight: None, args: Seq::empty(), done: false }
}

/// The arguments with the root of the argument that has just ended. An
/// argument without a root adds nothing, and more than `capacity` arguments
/// are a `CapacityExceeded`.
pub open spec fn with_root(args: Seq<usize>, best: Option<int>, capacity: nat) -> Result<
    Seq<usize>,
    Error,
> {
    match best {
        Some(root) => if args.len() < capacity {
            Ok(args.push(root as usize))
        } else {
            Err(Error::CapacityExceeded)
        },
        None => Ok(args),
    }
}

/// What the element at the place `j` makes of a search.
///
/// - An instruction or a call becomes the root if it weighs no more than the
///   root so far; each open bracket adds to its weight.
/// - A literal or a variable becomes the root if nothing with a weight has
///   been met and a comma or a closing bracket follows it.
/// - A comma within the bracket of the call ends an argument.
/// - The closing bracket of the call ends the last argument and the search.
pub open spec fn scan_one(shapes: Seq<Shape>, state: Scan, j: int, capacity: nat) -> Result<
    Scan,
    Error,
>
    recommends
        0 <= j < shapes.len(),
{
    match shapes[j] {
        Shape::Open => Ok(Scan { depth: state.depth + 1, ..state }),
        Shape::Close => if state.depth <= 1 {
            match with_root(state.args, state.best, capacity) {
                Ok(args) => Ok(Scan { args, done: true, ..state }),
                Err(e) => Err(e),
            }
        } else {
            Ok(Scan { depth: state.depth - 1, ..state })
        },
        Shape::Comma => if state.depth == 1 {
            match with_root(state.args, state.best, capacity) {
                Ok(args) => Ok(Scan { args, best: None, weight: None, ..state }),
                Err(e) => Err(e),
            }
        } else {
            Ok(state)
        },
        Shape::Weighted(binding) => {
            let weight = binding + 100 * state.depth;
            if state.weight is None || state.weight.unwrap() >= weight {
                Ok(Scan { best: Some(j), weight: Some(weight), ..state })
            } else {
                Ok(state)
            }
        },
        Shape::Atom => if state.weight is None && j + 1 < shapes.len() && (shapes[j + 1] is Close
            || shapes[j + 1] is Comma) {
            Ok(Scan { best: Some(j), ..state })
        } else {
            Ok(state)
        },
        Shape::Other => Ok(state),
    }
}

/// The arguments that a search finds from the place `j` on. A call whose
/// bracket is never closed has the arguments that were ended by commas.
pub open spec fn scan_from(shapes: Seq<Shape>, state: Scan, j: int, capacity: nat) -> Result<
    Seq<usize>,
    Error,
>
    decreases shapes.len() - j,
{
    if j < 0 || j >= shapes.len() {
        Ok(state.args)
    } else {
        match scan_one(shapes, state, j, capacity) {
            Ok(next) => if next.done {
                Ok(next.args)
            } else {
                scan_from(shapes, next, j + 1, capacity)
            },
            Err(e) => Err(e),
        }
    }
}

/// The roots of the arguments of the call at the place `f`, in their order.
pub open spec fn arguments_of(shapes: Seq<Shape>, f: int, capacity: nat) -> Result<
    Seq<usize>,
    Error,
> {
    scan_from(shapes, scan_start(), f + 1, capacity)
}

/// The elements, the calls among the first `n` of them with their
/// arguments.
pub open spec fn segment_upto<T, const LANES: usize>(
    elements: Seq<ElementView<T, LANES>>,
    n: nat,
    capacity: nat,
) -> Result<Seq<ElementView<T, LANES>>, Error>
    recommends
        n <= elements.len(),
    decreases n,
{
    if n == 0 {
        Ok(elements)
    } else {
        match segment_upto(elements, (n - 1) as nat, capacity) {
            Ok(before) => match elements[n - 1] {
                ElementView::Node(NodeView::Function { function, .. }) => match arguments_of(
                    shapes(elements),
                    n - 1,
                    capacity,
                ) {
                    Ok(args) => Ok(
                        before.update(
                            n - 1,
                            ElementView::Node(NodeView::Function { function, args }),
                        ),
                    ),
                    Err(e) => Err(e),
                },
                _ => Ok(before),
            },
            Err(e) => Err(e),
        }
    }
}

/// The elements, every call with its arguments, or the first error.
pub open spec fn segmented<T, const LANES: usize>(
    elements: Seq<ElementView<T, LANES>>,
    capacity: nat,
) -> Result<Seq<ElementView<T, LANES>>, Error> {
    segment_upto(elements, elements.len(), capacity)
}

/// Once a call cannot be given its arguments, the error stays the same
/// however many more elements are looked at.
pub proof fn lemma_segment_error_stays<T, const LANES: usize>(
    elements: Seq<ElementView<T, LANES>>,
    n: nat,
    m: nat,
    capacity: nat,
)
    requires
        n <= m,
        segment_upto(elements, n, capacity) is Err,
    ensures
        segment_upto(elements, m, capacity) == segment_upto(elements, n, capacity),
    decreases m - n,
{
    if n < m {
        lemma_segment_error_stays(elements, n, (m - 1) as nat, capacity);
    }
}

/// Giving calls their arguments changes nothing but the arguments.
pub proof fn lemma_segment_keeps<T, const LANES: usize>(
    elements: Seq<ElementView<T, LANES>>,
    n: nat,
    capacity: nat,
)
    requires
        n <= elements.len(),
        segment_upto(elements, n, capacity) is Ok,
    ensures
        segment_upto(elements, n, capacity).unwrap().len() == elements.len(),
        forall|i: int|
            0 <= i < elements.len() ==> (#[trigger] segment_upto(
                elements,
                n,
                capacity,
            ).unwrap()[i]) == (match elements[i] {
                ElementView::Node(NodeView::Function { function, args }) => ElementView::Node(
                    NodeView::Function {
                        function,
                        args: if i < n {
                            arguments_of(shapes(elements), i, capacity).unwrap()
                        } else {
                            args
                        },
                    },
                ),
                other => other,
            }),
        forall|i: int|
            0 <= i < n && (#[trigger] elements[i]) is Node && elements[i]->Node_0 is Function
                ==> arguments_of(shapes(elements), i, capacity) is Ok,
    decreases n,
{
    if n > 0 {
        lemma_segment_keeps(elements, (n - 1) as nat, capacity);
    }
}

/// A call is given no more arguments than the capacity.
pub proof fn lemma_scan_bounded(shapes: Seq<Shape>, state: Scan, j: int, capacity: nat)
    requires
        state.args.len() <= capacity,
        scan_from(shapes, state, j, capacity) is Ok,
    ensures
        scan_from(shapes, state, j, capacity).unwrap().len() <= capacity,
    decreases shapes.len() - j,
{
    if 0 <= j < shapes.len() {
        let next = scan_one(shapes, state, j, capacity).unwrap();
        if !next.done {
            lemma_scan_bounded(shapes, next, j + 1, capacity);
        }
    }
}

impl<T: Function<LANES>, const LANES: usize> Expression<T, LANES> {
    /// What the element at the place `j` is to the search.
    fn shape_at(elements: &Vec<ParseElement<T, LANES>>, j: usize) -> (r: (u8, i16))
        requires
            j < elements@.len(),
        ensures
            match shape_of(views(elements@)[j as int]) {
                Shape::Open => r.0 == 0,
                Shape::Close => r.0 == 1,
                Shape::Comma => r.0 == 2,
                Shape::Weighted(binding) => r.0 == 3 && r.1 == binding,
                Shape::Atom => r.0 == 4,
                Shape::Other => r.0 == 5,
            },
    {
        match &elements[j] {
            ParseElement::Token(token) => match token.kind() {
                TokenKind::Bracket(Bracket::Opened) => (0, 0),
                TokenKind::Bracket(Bracket::Closed) => (1, 0),
                TokenKind::Special(Special::Comma) => (2, 0),
                _ => (5, 0),
            },
            ParseElement::Node(node) => match node {
                Node::Instruction { operator, .. } => (3, operator.weight()),
                Node::Function { .. } => (3, CALL_WEIGHT),
                _ => (4, 0),
            },
        }
    }

    /// Finds the arguments of the call at the place `f`.
    fn find_args(elements: &Vec<ParseElement<T, LANES>>, f: usize) -> (r: Result<Vec<usize>, Error>)
        requires
            f < elements@.len(),
        ensures
            match arguments_of(shapes(views(elements@)), f as int, T::capacity()) {
                Ok(args) => r is Ok && r.unwrap()@ == args,
                Err(e) => r == Err::<Vec<usize>, Error>(e),
            },
    {
        let ghost all = shapes(views(elements@));
        let ghost capacity = T::capacity();
        let most = T::max_args();
        let mut args: Vec<usize> = Vec::new();
        let mut depth: usize = 0;
        let mut best: Option<usize> = None;
        let mut weight: Option<i128> = None;
        let len = elements.len();
        let mut j: usize = f + 1;
        while j < len
            invariant
                f < j <= elements@.len(),
                len == elements@.len(),
                all == shapes(views(elements@)),
                capacity == T::capacity(),
                most == capacity,
                depth <= j,
                arguments_of(all, f as int, capacity) == scan_from(
                    all,
                    Scan {
                        depth: depth as int,
                        best: match best {
                            Some(b) => Some(b as int),
                            None => None,
                        },
                        weight: match weight {
                            Some(w) => Some(w as int),
                            None => None,
                        },
                        args: args@,
                        done: false,
                    },
                    j as int,
                    capacity,
                ),
                best is Some ==> best.unwrap() < j,
                weight is Some ==> -100 * j <= weight.unwrap() <= 100 * j + 100,
            decreases elements@.len() - j,
        {
            let ghost state = Scan {
                depth: depth as int,
                best: match best {
                    Some(b) => Some(b as int),
                    None => None,
                },
                weight: match weight {
                    Some(w) => Some(w as int),
                    None => None,
                },
                args: args@,
                done: false,
            };
            assert(all[j as int] == shape_of(views(elements@)[j as int]));
            let (shape, binding) = Self::shape_at(elements, j);
            let mut close = false;
            if shape == 0 {
                depth = depth + 1;
            } else if shape == 1 {
                if depth <= 1 {
                    close = true;
                } else {
                    depth = depth - 1;
                }
            } else if shape == 2 {
                if depth == 1 {
                    if let Some(root) = best {
                        if args.len() >= most {
                            return Err(Error::CapacityExceeded);
                        }
                        args.push(root);
                    }
                    best = None;
                    weight = None;
                }
            } else if shape == 3 {
                let w: i128 = binding as i128 + 100 * (depth as i128);
                let lower = match weight {
                    Some(found) => found >= w,
                    None => true,
                };
                if lower {
                    best = Some(j);
                    weight = Some(w);
                }
            } else if shape == 4 {
                if weight.is_none() && j + 1 < elements.len() {
                    assert(all[j + 1] == shape_of(views(elements@)[j + 1]));
                    let (next, _) = Self::shape_at(elements, j + 1);
                    if next == 1 || next == 2 {
                        best = Some(j);
                    }
                }
            }
            if close {
                if let Some(root) = best {
                    if args.len() >= most {
                        return Err(Error::CapacityExceeded);
                    }
                    args.push(root);
                }
                return Ok(args);
            }
            j += 1;
        }
        Ok(args)
    }

    /// Gives every call of a function its arguments.
    ///
    /// The arguments of a call stand between its bracket and the bracket
    /// that closes it, with commas between them. The root of an argument is
    /// found as the root of the tree is: it is the last element of least
    /// weight.
    pub(crate) fn set_function_args(elements: &mut Vec<ParseElement<T, LANES>>) -> (r: Result<
        (),
        Error,
    >)
        ensures
            match segmented(views(old(elements)@), T::capacity()) {
                Ok(after) => r == Ok::<(), Error>(()) && views(final(elements)@) == after,
                Err(e) => r == Err::<(), Error>(e),
            },
    {
        let ghost before = views(elements@);
        let ghost capacity = T::capacity();
        let mut index: usize = 0;
        while index < elements.len()
            invariant
                index <= elements@.len(),
                elements@.len() == before.len(),
                before == views(old(elements)@),
                capacity == T::capacity(),
                shapes(views(elements@)) == shapes(before),
                segment_upto(before, index as nat, capacity) == Ok::<
                    Seq<ElementView<T, LANES>>,
                    Error,
                >(views(elements@)),
            decreases elements@.len() - index,
        {
            proof {
                lemma_segment_keeps(before, index as nat, capacity);
            }
            let found = match &elements[index] {
                ParseElement::Node(Node::Function { function, .. }) => Some(*function),
                _ => None,
            };
            if let Some(function) = found {
                assert(views(elements@)[index as int] is Node);
                assert(before[index as int] is Node && before[index as int]->Node_0 is Function
                    && before[index as int]->Node_0->Function_function == function);
                match Self::find_args(elements, index) {
                    Ok(args) => {
                        let ghost held = views(elements@);
                        elements[index] = ParseElement::Node(Node::Function { function, args });
                        assert(views(elements@) =~= held.update(
                            index as int,
                            ElementView::Node(NodeView::Function { function, args: args@ }),
                        ));
                        assert(shapes(views(elements@)) =~= shapes(before));
                    },
                    Err(e) => {
                        proof {
                            lemma_segment_error_stays(
                                before,
                                (index + 1) as nat,
                                before.len(),
                                capacity,
                            );
                        }
                        return Err(e);
                    },
                }
            } else {
                assert(!(before[index as int] is Node && before[index as int]->Node_0 is Function));
            }
            index += 1;
        }
        Ok(())
    }
}

} // verus!
