//! The promotion of tokens to nodes.
use super::enums::{Identifier, Literal, Special, TokenKind};
use super::expression::Expression;
use super::function::{bytes_equal, texts, Function};
use super::lexing::{is_digit, tokens_within, DIGIT_0, DIGIT_9};
use super::node::{Node, NodeView};
use super::parse_element::{views, ElementView, ParseElement};
use super::value::single::Single;
use super::value::Value;
use super::variables::{slot_of, Variables};
use crate::error::Error;
use crate::float::{is_float_parser, reads_by};
use crate::stack::Stack;
use vstd::prelude::*;
use vstd::string::StringSliceAdditionalSpecFns;

verus! {

/// The number that a text of decimal digits stands for.
pub open spec fn decimal(text: Seq<u8>) -> int
    decreases text.len(),
{
    if text.len() == 0 {
        0
    } else {
        decimal(text.drop_last()) * 10 + (text.last() - DIGIT_0)
    }
}

/// Whether every byte of a text is a decimal digit.
pub open spec fn all_digits(text: Seq<u8>) -> bool {
    forall|i: int| 0 <= i < text.len() ==> is_digit(#[trigger] text[i])
}

/// The value of an integer literal: a text of one or more decimal digits
/// whose number has a place in 64 bits.
pub open spec fn int_literal(text: Seq<u8>) -> Option<i64> {
    if text.len() > 0 && all_digits(text) && decimal(text) <= i64::MAX {
        Some(decimal(text) as i64)
    } else {
        None
    }
}

/// The bytes of `true`.
pub open spec fn true_text() -> Seq<u8> {
    "true".spec_bytes()
}

/// The bytes of `false`.
pub open spec fn false_text() -> Seq<u8> {
    "false".spec_bytes()
}

/// The value of a boolean literal.
pub open spec fn bool_literal(text: Seq<u8>) -> Option<bool> {
    if text == true_text() {
        Some(true)
    } else if text == false_text() {
        Some(false)
    } else {
        None
    }
}

proof fn lemma_decimal_grows(text: Seq<u8>, k: int)
    requires
        all_digits(text),
        0 <= k <= text.len(),
    ensures
        0 <= decimal(text.take(k)) <= decimal(text),
    decreases text.len() - k,
{
    if k < text.len() {
        lemma_decimal_grows(text, k + 1);
        assert(text.take(k + 1).drop_last() =~= text.take(k));
        assert forall|i: int| 0 <= i < k implies is_digit(#[trigger] text.take(k)[i]) by {
            assert(is_digit(text[i]));
        }
        lemma_decimal_positive(text.take(k));
        assert(is_digit(text[k]));
    } else {
        assert(text.take(k) =~= text);
        lemma_decimal_positive(text);
    }
}

proof fn lemma_decimal_positive(text: Seq<u8>)
    requires
        all_digits(text),
    ensures
        0 <= decimal(text),
    decreases text.len(),
{
    if text.len() > 0 {
        assert(is_digit(text[text.len() - 1]));
        lemma_decimal_positive(text.drop_last());
    }
}

/// Reads an integer literal.
pub fn parse_int(text: &[u8]) -> (r: Option<i64>)
    ensures
        r == int_literal(text@),
{
    if text.len() == 0 {
        return None;
    }
    let mut acc: i64 = 0;
    let mut i: usize = 0;
    while i < text.len()
        invariant
            i <= text@.len(),
            all_digits(text@.take(i as int)),
            acc == decimal(text@.take(i as int)),
            0 <= acc,
        decreases text@.len() - i,
    {
        let chr = text[i];
        if chr < DIGIT_0 || chr > DIGIT_9 {
            assert(!is_digit(text@[i as int]));
            return None;
        }
        let digit: i64 = (chr - DIGIT_0) as i64;
        assert(text@.take(i + 1).drop_last() =~= text@.take(i as int));
        if acc > (i64::MAX - digit) / 10 {
            proof {
                if all_digits(text@) {
                    lemma_decimal_grows(text@, i + 1);
                }
            }
            return None;
        }
        acc = acc * 10 + digit;
        i += 1;
        assert forall|k: int| 0 <= k < i implies is_digit(#[trigger] text@.take(i as int)[k]) by {
            if k < i - 1 {
                assert(is_digit(text@.take(i - 1)[k]));
            }
        }
    }
    assert(text@.take(i as int) =~= text@);
    Some(acc)
}

/// Reads a boolean literal.
pub fn parse_bool(text: &[u8]) -> (r: Option<bool>)
    ensures
        r == bool_literal(text@),
{
    if bytes_equal(text, "true".as_bytes()) {
        Some(true)
    } else if bytes_equal(text, "false".as_bytes()) {
        Some(false)
    } else {
        None
    }
}

/// The place before `i`. The first place has none within the array, and is
/// given one that lies outside every array.
pub open spec fn place_before(i: int) -> usize {
    if i <= 0 {
        usize::MAX
    } else {
        (i - 1) as usize
    }
}

/// How far the promotion of tokens to nodes has come.
pub struct Promotion<T, const LANES: usize> {
    /// The elements, the first of them promoted.
    pub elements: Seq<ElementView<T, LANES>>,
    /// The names of the variables met so far, each at its slot.
    pub names: Seq<Seq<u8>>,
    /// The namespaces met since the last identifier.
    pub namespaces: Seq<Seq<u8>>,
}

/// The promotion of the element at the place `i`.
///
/// - A literal becomes its value; a text that is no value of its kind is an
///   `InvalidToken`.
/// - An operator becomes an instruction on its two neighbours.
/// - The name of a function becomes the function that the library resolves
///   it to under the namespaces before it.
/// - The name of a variable becomes the slot of the variable; a name that is
///   met for the first time is given the next slot.
/// - A namespace is kept for the next identifier, of at most `capacity`.
/// - The zero of a unary minus becomes the integer zero.
/// - Brackets and commas stay as they are.
pub open spec fn promote_one<T: Function<LANES>, const LANES: usize>(
    state: Promotion<T, LANES>,
    source: Seq<u8>,
    reading: spec_fn(Seq<u8>) -> Option<u64>,
    i: int,
    capacity: nat,
) -> Result<Promotion<T, LANES>, Error>
    recommends
        0 <= i < state.elements.len(),
{
    match state.elements[i] {
        ElementView::Node(_) => Ok(state),
        ElementView::Token(token) => {
            let text = token.text(source);
            match token.token_kind {
                TokenKind::Literal(Literal::Int) => match int_literal(text) {
                    Some(v) => Ok(
                        Promotion {
                            elements: state.elements.update(
                                i,
                                ElementView::Node(
                                    NodeView::Literal(Value::Single(Single::Int(v))),
                                ),
                            ),
                            ..state
                        },
                    ),
                    None => Err(Error::InvalidToken),
                },
                TokenKind::Literal(Literal::Float) => match reading(text) {
                    Some(v) => Ok(
                        Promotion {
                            elements: state.elements.update(
                                i,
                                ElementView::Node(
                                    NodeView::Literal(Value::Single(Single::Float(v))),
                                ),
                            ),
                            ..state
                        },
                    ),
                    None => Err(Error::InvalidToken),
                },
                TokenKind::Literal(Literal::Bool) => match bool_literal(text) {
                    Some(v) => Ok(
                        Promotion {
                            elements: state.elements.update(
                                i,
                                ElementView::Node(
                                    NodeView::Literal(Value::Single(Single::Bool(v))),
                                ),
                            ),
                            ..state
                        },
                    ),
                    None => Err(Error::InvalidToken),
                },
                TokenKind::Operator(operator) => Ok(
                    Promotion {
                        elements: state.elements.update(
                            i,
                            ElementView::Node(
                                NodeView::Instruction {
                                    operator,
                                    lhs: place_before(i),
                                    rhs: (i + 1) as usize,
                                },
                            ),
                        ),
                        ..state
                    },
                ),
                TokenKind::Identifier(Identifier::Function) => match T::resolved(
                    state.namespaces,
                    text,
                ) {
                    Ok(function) => Ok(
                        Promotion {
                            elements: state.elements.update(
                                i,
                                ElementView::Node(
                                    NodeView::Function { function, args: Seq::empty() },
                                ),
                            ),
                            names: state.names,
                            namespaces: Seq::empty(),
                        },
                    ),
                    Err(e) => Err(e),
                },
                TokenKind::Identifier(Identifier::Variable) => match slot_of(state.names, text) {
                    Some(slot) => Ok(
                        Promotion {
                            elements: state.elements.update(
                                i,
                                ElementView::Node(NodeView::Variable { index: slot as usize }),
                            ),
                            names: state.names,
                            namespaces: Seq::empty(),
                        },
                    ),
                    None => Ok(
                        Promotion {
                            elements: state.elements.update(
                                i,
                                ElementView::Node(
                                    NodeView::Variable { index: state.names.len() as usize },
                                ),
                            ),
                            names: state.names.push(text),
                            namespaces: Seq::empty(),
                        },
                    ),
                },
                TokenKind::Bracket(_) => Ok(state),
                TokenKind::Special(Special::Comma) => Ok(state),
                TokenKind::Special(Special::Namespace) => if state.namespaces.len() < capacity {
                    Ok(Promotion { namespaces: state.namespaces.push(text), ..state })
                } else {
                    Err(Error::CapacityExceeded)
                },
                TokenKind::Special(Special::NegZero) => Ok(
                    Promotion {
                        elements: state.elements.update(
                            i,
                            ElementView::Node(NodeView::Literal(Value::Single(Single::Int(0)))),
                        ),
                        ..state
                    },
                ),
            }
        },
    }
}

/// The promotion of the first `n` elements, from the first on.
pub open spec fn promote_upto<T: Function<LANES>, const LANES: usize>(
    elements: Seq<ElementView<T, LANES>>,
    names: Seq<Seq<u8>>,
    source: Seq<u8>,
    reading: spec_fn(Seq<u8>) -> Option<u64>,
    n: nat,
    capacity: nat,
) -> Result<Promotion<T, LANES>, Error>
    recommends
        n <= elements.len(),
    decreases n,
{
    if n == 0 {
        Ok(Promotion { elements, names, namespaces: Seq::empty() })
    } else {
        match promote_upto(elements, names, source, reading, (n - 1) as nat, capacity) {
            Ok(state) => promote_one(state, source, reading, n - 1, capacity),
            Err(e) => Err(e),
        }
    }
}

/// The promotion of all elements: the nodes and the names of the variables,
/// or the first error.
pub open spec fn promoted<T: Function<LANES>, const LANES: usize>(
    elements: Seq<ElementView<T, LANES>>,
    names: Seq<Seq<u8>>,
    source: Seq<u8>,
    reading: spec_fn(Seq<u8>) -> Option<u64>,
    capacity: nat,
) -> Result<Promotion<T, LANES>, Error> {
    promote_upto(elements, names, source, reading, elements.len(), capacity)
}

/// Every variable of the tree has one of the first `n` slots, and no call
/// has more than `capacity` arguments.
pub open spec fn well_linked<T, const LANES: usize>(
    elements: Seq<ElementView<T, LANES>>,
    n: nat,
    capacity: nat,
) -> bool {
    forall|i: int|
        0 <= i < elements.len() ==> match #[trigger] elements[i] {
            ElementView::Node(NodeView::Variable { index }) => index < n,
            ElementView::Node(NodeView::Function { args, .. }) => args.len() <= capacity,
            _ => true,
        }
}

/// Promotion gives every variable that it meets a slot, and keeps the
/// slots that were given before.
pub proof fn lemma_promoted_slots<T: Function<LANES>, const LANES: usize>(
    elements: Seq<ElementView<T, LANES>>,
    names: Seq<Seq<u8>>,
    source: Seq<u8>,
    reading: spec_fn(Seq<u8>) -> Option<u64>,
    n: nat,
    capacity: nat,
    most: nat,
)
    requires
        n <= elements.len(),
        names.len() + elements.len() <= usize::MAX,
        well_linked(elements, names.len(), most),
        promote_upto(elements, names, source, reading, n, capacity) is Ok,
    ensures
        ({
            let state = promote_upto(elements, names, source, reading, n, capacity).unwrap();
            &&& state.elements.len() == elements.len()
            &&& names.len() <= state.names.len() <= names.len() + n
            &&& well_linked(state.elements, state.names.len(), most)
        }),
    decreases n,
{
    if n > 0 {
        lemma_promoted_slots(elements, names, source, reading, (n - 1) as nat, capacity, most);
        let before = promote_upto(elements, names, source, reading, (n - 1) as nat, capacity).unwrap();
        let state = promote_upto(elements, names, source, reading, n, capacity).unwrap();
        assert forall|i: int| 0 <= i < state.elements.len() implies
            match #[trigger] state.elements[i] {
            ElementView::Node(NodeView::Variable { index }) => index < state.names.len(),
            ElementView::Node(NodeView::Function { args, .. }) => args.len() <= most,
            _ => true,
        } by {
            if i != n - 1 {
                assert(state.elements[i] == before.elements[i]);
            }
        }
    }
}

/// Whether a token stays a token when it is promoted: brackets, commas and
/// namespaces do.
pub open spec fn stays_token(kind: TokenKind) -> bool {
    kind is Bracket || kind == TokenKind::Special(Special::Comma) || kind == TokenKind::Special(
        Special::Namespace,
    )
}

/// After the promotion every element is a node, but for the brackets, the
/// commas and the namespaces, which stay the tokens that they were.
pub proof fn lemma_promoted_nodes<T: Function<LANES>, const LANES: usize>(
    elements: Seq<ElementView<T, LANES>>,
    names: Seq<Seq<u8>>,
    source: Seq<u8>,
    reading: spec_fn(Seq<u8>) -> Option<u64>,
    n: nat,
    capacity: nat,
)
    requires
        n <= elements.len(),
        promote_upto(elements, names, source, reading, n, capacity) is Ok,
    ensures
        ({
            let state = promote_upto(elements, names, source, reading, n, capacity).unwrap();
            &&& state.elements.len() == elements.len()
            &&& forall|i: int|
                0 <= i < n ==> match #[trigger] state.elements[i] {
                    ElementView::Token(token) => elements[i] == state.elements[i] && stays_token(
                        token.token_kind,
                    ),
                    ElementView::Node(_) => true,
                }
            &&& forall|i: int| n <= i < elements.len() ==> state.elements[i] == elements[i]
        }),
    decreases n,
{
    if n > 0 {
        lemma_promoted_nodes(elements, names, source, reading, (n - 1) as nat, capacity);
    }
}

/// Once the promotion has failed, it has failed for every longer piece of
/// the elements, with the same error.
pub proof fn lemma_promote_error_stays<T: Function<LANES>, const LANES: usize>(
    elements: Seq<ElementView<T, LANES>>,
    names: Seq<Seq<u8>>,
    source: Seq<u8>,
    reading: spec_fn(Seq<u8>) -> Option<u64>,
    n: nat,
    m: nat,
    capacity: nat,
)
    requires
        n <= m,
        promote_upto(elements, names, source, reading, n, capacity) is Err,
    ensures
        promote_upto(elements, names, source, reading, m, capacity) == promote_upto(
            elements,
            names,
            source,
            reading,
            n,
            capacity,
        ),
    decreases m - n,
{
    if n < m {
        lemma_promote_error_stays(elements, names, source, reading, n, (m - 1) as nat, capacity);
    }
}

impl<T: Function<LANES>, const LANES: usize> Expression<T, LANES> {
    /// Puts a node in the place of the element at `i`.
    pub(crate) fn set_node(
        elements: &mut Vec<ParseElement<T, LANES>>,
        i: usize,
        node: Node<T, LANES>,
    )
        requires
            i < old(elements)@.len(),
        ensures
            final(elements)@.len() == old(elements)@.len(),
            views(final(elements)@) == views(old(elements)@).update(
                i as int,
                ElementView::Node(node@),
            ),
    {
        elements[i] = ParseElement::Node(node);
        assert(views(elements@) =~= views(old(elements)@).update(
            i as int,
            ElementView::Node(node@),
        ));
    }

    /// Promotes the tokens to nodes, from the first on. `N` is the number of
    /// namespaces that may stand before one identifier.
    pub(crate) fn to_nodes<const N: usize, P: Fn(&[u8]) -> Option<u64>>(
        elements: &mut Vec<ParseElement<T, LANES>>,
        variables: &mut Variables<LANES>,
        source: &[u8],
        parser: &P,
    ) -> (r: Result<(), Error>)
        requires
            is_float_parser(parser),
            old(variables).wf(),
            tokens_within(views(old(elements)@), source@.len() as int),
        ensures
            final(variables).wf(),
            final(elements)@.len() == old(elements)@.len(),
            r is Ok ==> well_linked(views(final(elements)@), final(variables).names().len(), 0),
            forall|reading: spec_fn(Seq<u8>) -> Option<u64>|
                reads_by(parser, reading) ==> (match promoted(
                    views(old(elements)@),
                    old(variables).names(),
                    source@,
                    reading,
                    N as nat,
                ) {
                    Ok(state) => r == Ok::<(), Error>(()) && views(final(elements)@) == state.elements
                        && final(variables).names() == state.names,
                    Err(e) => r == Err::<(), Error>(e),
                }),
            final(variables).values().len() == final(variables).names().len(),
            forall|k: int|
                0 <= k < old(variables).values().len() ==> final(variables).values()[k] ==
                    old(variables).values()[k],
            forall|k: int|
                old(variables).values().len() <= k < final(variables).values().len() ==>
                    final(variables).values()[k] == Value::<LANES>::Single(Single::Int(0)),
    {
        let ghost before = views(elements@);
        let ghost names = variables.names();
        let mut namespaces: Stack<&[u8], N> = Stack::new();
        let mut i: usize = 0;
        proof {
            variables.lemma_wf();
            assert(texts(namespaces@) =~= Seq::empty());
            assert forall|k: int| 0 <= k < before.len() implies
                (#[trigger] before[k]) is Token by {}
        }
        while i < elements.len()
            invariant
                i <= elements@.len(),
                elements@.len() == before.len(),
                before == views(old(elements)@),
                is_float_parser(parser),
                names == old(variables).names(),
                variables.wf(),
                namespaces.wf(),
                tokens_within(before, source@.len() as int),
                forall|k: int| i <= k < before.len() ==> views(elements@)[k] == before[k],
                well_linked(views(elements@), variables.names().len(), 0),
                forall|reading: spec_fn(Seq<u8>) -> Option<u64>|
                    reads_by(parser, reading) ==> promote_upto(
                        before,
                        names,
                        source@,
                        reading,
                        i as nat,
                        N as nat,
                    ) == Ok::<Promotion<T, LANES>, Error>(
                        Promotion {
                            elements: views(elements@),
                            names: variables.names(),
                            namespaces: texts(namespaces@),
                        },
                    ),
                variables.values().len() == variables.names().len(),
                old(variables).values().len() <= variables.values().len(),
                forall|k: int|
                    0 <= k < old(variables).values().len() ==> variables.values()[k] ==
                        old(variables).values()[k],
                forall|k: int|
                    old(variables).values().len() <= k < variables.values().len()
                        ==> variables.values()[k] == Value::<LANES>::Single(Single::Int(0)),
            decreases elements@.len() - i,
        {
            let ghost state = Promotion::<T, LANES> {
                elements: views(elements@),
                names: variables.names(),
                namespaces: texts(namespaces@),
            };
            assert(views(elements@)[i as int] == before[i as int]);
            assert(before[i as int] is Token);
            let token = match &elements[i] {
                ParseElement::Token(token) => *token,
                ParseElement::Node(_) => {
                    assert(false);
                    i += 1;
                    continue ;
                },
            };
            let text = token.slice(source);
            let mut failure: Option<Error> = None;
            match token.kind() {
                TokenKind::Literal(Literal::Int) => match parse_int(text) {
                    Some(v) => Self::set_node(
                        elements,
                        i,
                        Node::Literal(Value::Single(Single::Int(v))),
                    ),
                    None => {
                        failure = Some(Error::InvalidToken);
                    },
                },
                TokenKind::Literal(Literal::Float) => match crate::float::parse(parser, text) {
                    Some(v) => Self::set_node(
                        elements,
                        i,
                        Node::Literal(Value::Single(Single::Float(v))),
                    ),
                    None => {
                        failure = Some(Error::InvalidToken);
                    },
                },
                TokenKind::Literal(Literal::Bool) => match parse_bool(text) {
                    Some(v) => Self::set_node(
                        elements,
                        i,
                        Node::Literal(Value::Single(Single::Bool(v))),
                    ),
                    None => {
                        failure = Some(Error::InvalidToken);
                    },
                },
                TokenKind::Operator(operator) => {
                    let lhs = if i == 0 {
                        usize::MAX
                    } else {
                        i - 1
                    };
                    Self::set_node(elements, i, Node::Instruction { operator, lhs, rhs: i + 1 });
                },
                TokenKind::Identifier(Identifier::Function) => {
                    match T::from_string(namespaces.slice(), text) {
                        Ok(function) => {
                            Self::set_node(
                                elements,
                                i,
                                Node::Function { function, args: Vec::new() },
                            );
                            namespaces.clear();
                            assert(texts(namespaces@) =~= Seq::empty());
                        },
                        Err(e) => {
                            failure = Some(e);
                        },
                    }
                },
                TokenKind::Identifier(Identifier::Variable) => {
                    proof {
                        variables.lemma_wf();
                    }
                    let index = variables.find_or_set(text);
                    Self::set_node(elements, i, Node::Variable { index });
                    namespaces.clear();
                    assert(texts(namespaces@) =~= Seq::empty());
                },
                TokenKind::Bracket(_) => {},
                TokenKind::Special(Special::Comma) => {},
                TokenKind::Special(Special::Namespace) => {
                    let ghost held = namespaces@;
                    proof {
                        namespaces.lemma_bounded();
                    }
                    match namespaces.push(text) {
                        Ok(()) => {
                            assert(texts(namespaces@) =~= texts(held).push(text@));
                        },
                        Err(_) => {
                            failure = Some(Error::CapacityExceeded);
                        },
                    }
                },
                TokenKind::Special(Special::NegZero) => {
                    Self::set_node(elements, i, Node::Literal(Value::Single(Single::Int(0))));
                },
            }
            if let Some(e) = failure {
                proof {
                    assert forall|reading: spec_fn(Seq<u8>) -> Option<u64>|
                        reads_by(parser, reading) implies promoted(
                            before,
                            names,
                            source@,
                            reading,
                            N as nat,
                        ) == Err::<Promotion<T, LANES>, Error>(e) by {
                            assert(promote_one(state, source@, reading, i as int, N as nat) == Err::<
                                Promotion<T, LANES>,
                                Error,
                            >(e));
                            assert(promote_upto(
                                before,
                                names,
                                source@,
                                reading,
                                (i + 1) as nat,
                                N as nat,
                            ) == promote_one(state, source@, reading, i as int, N as nat));
                            lemma_promote_error_stays(
                                before,
                                names,
                                source@,
                                reading,
                                (i + 1) as nat,
                                before.len(),
                                N as nat,
                            );
                        }
                }
                return Err(e);
            }
            proof {
                variables.lemma_wf();
                assert forall|reading: spec_fn(Seq<u8>) -> Option<u64>|
                    reads_by(parser, reading) implies promote_upto(
                        before,
                        names,
                        source@,
                        reading,
                        (i + 1) as nat,
                        N as nat,
                    ) == Ok::<Promotion<T, LANES>, Error>(
                        Promotion {
                            elements: views(elements@),
                            names: variables.names(),
                            namespaces: texts(namespaces@),
                        },
                    ) by {
                        assert(promote_one(state, source@, reading, i as int, N as nat) == Ok::<
                            Promotion<T, LANES>,
                            Error,
                        >(
                            Promotion {
                                elements: views(elements@),
                                names: variables.names(),
                                namespaces: texts(namespaces@),
                            },
                        ));
                    }
            }
            i += 1;
        }
        Ok(())
    }
}

} // verus!
