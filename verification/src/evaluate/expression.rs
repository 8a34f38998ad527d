//! The expression: a formula, its compiled tree and its variables.
use super::arguments::{lemma_scan_bounded, lemma_segment_keeps, scan_start, segmented, shapes};
use super::function::Function;
use super::lexing::lexed;
use super::linking::{resolved, root};
use super::node::{Node, NodeView};
use super::parse_element::{views, ElementView, ParseElement};
use super::promotion::{promoted, well_linked};
use super::settling::{covers, optimized};
use super::value::single::Single;
use super::value::Value;
use super::variables::{slot_of, Variables};
use super::walking::walk;
use crate::error::Error;
use crate::float::{is_float_parser, is_float_unit, reads_by, works_by, FloatOp};
use vstd::prelude::*;
use vstd::string::StringSliceAdditionalSpecFns;

verus! {

/// A formula and, once it is compiled, the tree that it stands for.
///
/// The tree lies in one array of elements, and its nodes name each other by
/// their places in the array.
#[derive(Debug)]
pub struct Expression<T: Function<LANES>, const LANES: usize> {
    pub(crate) elements: Vec<ParseElement<T, LANES>>,
    pub(crate) variables: Variables<LANES>,
    pub(crate) expression: String,
    pub(crate) top_node: Option<usize>,
}

/// What a formula is compiled into.
pub struct Compiled<T, const LANES: usize> {
    /// The elements of the tree.
    pub elements: Seq<ElementView<T, LANES>>,
    /// The names of the variables, each at its slot.
    pub names: Seq<Seq<u8>>,
    /// The place of the root of the tree.
    pub top: usize,
}

/// How many namespaces may stand before the name of a function.
pub const MAX_NAMESPACES: usize = 4;

/// What a source is compiled into, or the first error.
///
/// The source is lexed into tokens, the tokens are promoted to nodes, the
/// nodes are linked into a tree, and every call is given its arguments. The
/// variables have their slots in the order in which the source names them
/// first.
pub open spec fn compiled<T: Function<LANES>, const LANES: usize>(
    source: Seq<u8>,
    reading: spec_fn(Seq<u8>) -> Option<u64>,
) -> Result<Compiled<T, LANES>, Error> {
    if source.len() == 0 {
        Err(Error::EmptyExpression)
    } else {
        match lexed::<T, LANES>(source) {
            Ok(tokens) => match promoted(
                tokens,
                Seq::empty(),
                source,
                reading,
                MAX_NAMESPACES as nat,
            ) {
                Ok(state) => match segmented(resolved(state.elements), T::capacity()) {
                    Ok(elements) => Ok(
                        Compiled { elements, names: state.names, top: root(state.elements) },
                    ),
                    Err(e) => Err(e),
                },
                Err(e) => Err(e),
            },
            Err(e) => Err(e),
        }
    }
}

/// The elements with every literal turned into a vector.
pub open spec fn spread_tree<T, const LANES: usize>(
    elements: Seq<ElementView<T, LANES>>,
    rule: spec_fn(FloatOp) -> u64,
) -> Seq<ElementView<T, LANES>> {
    Seq::new(
        elements.len(),
        |i: int|
            match elements[i] {
                ElementView::Node(NodeView::Literal(value)) => ElementView::Node(
                    NodeView::Literal(Value::Simd(value.spread(rule))),
                ),
                other => other,
            },
    )
}

/// The values, every one turned into a vector.
pub open spec fn spread_values<const LANES: usize>(
    values: Seq<Value<LANES>>,
    rule: spec_fn(FloatOp) -> u64,
) -> Seq<Value<LANES>> {
    Seq::new(values.len(), |i: int| Value::Simd(values[i].spread(rule)))
}

/// As many integer zeros as there are variables.
pub open spec fn zeros<const LANES: usize>(n: nat) -> Seq<Value<LANES>> {
    Seq::new(n, |i: int| Value::Single(Single::Int(0)))
}

impl<T: Function<LANES>, const LANES: usize> Expression<T, LANES> {
    /// The source as text.
    pub closed spec fn text(&self) -> Seq<char> {
        self.expression@
    }

    /// The source as bytes.
    pub open spec fn source(&self) -> Seq<u8> {
        vstd::utf8::encode_utf8(self.text())
    }

    /// The elements of the tree.
    pub closed spec fn tree(&self) -> Seq<ElementView<T, LANES>> {
        views(self.elements@)
    }

    /// The names of the variables, each at its slot.
    pub closed spec fn names(&self) -> Seq<Seq<u8>> {
        self.variables.names()
    }

    /// The values of the variables, each at its slot.
    pub closed spec fn values(&self) -> Seq<Value<LANES>> {
        self.variables.values()
    }

    /// The place of the root of the tree, once the formula is compiled.
    pub closed spec fn top(&self) -> Option<usize> {
        self.top_node
    }

    /// Every variable has a name and a value, no two variables share a name,
    /// every variable of the tree has a slot, no call has more arguments
    /// than the library allows, and a formula that is not compiled has no
    /// elements and no variables.
    pub closed spec fn wf(&self) -> bool {
        &&& self.variables.wf()
        &&& self.top_node is None ==> self.elements@.len() == 0 && self.variables.names().len()
            == 0
        &&& well_linked(views(self.elements@), self.variables.names().len(), T::capacity())
    }

    /// What holds of every well-formed expression.
    pub proof fn lemma_wf(&self)
        requires
            self.wf(),
        ensures
            self.names().len() == self.values().len(),
            super::variables::distinct(self.names()),
            self.top() is None ==> self.tree().len() == 0 && self.names().len() == 0,
            self.text().len() == 0 <==> self.source().len() == 0,
            well_linked(self.tree(), self.names().len(), T::capacity()),
    {
        self.variables.lemma_wf();
        vstd::utf8::encode_utf8_decode_utf8(self.expression@);
        if self.expression@.len() > 0 {
            vstd::utf8::encode_utf8_first_scalar(self.expression@);
        }
    }

    /// A formula that is not compiled yet.
    pub fn new(expression: String) -> (r: Self)
        ensures
            r.wf(),
            r.text() == expression@,
            r.top() is None,
            r.tree().len() == 0,
            r.names().len() == 0,
            r.values().len() == 0,
    {
        let capacity = expression.as_str().as_bytes().len();
        let r = Expression {
            elements: Vec::with_capacity(capacity),
            variables: Variables::with_capacity(capacity / 2),
            expression,
            top_node: None,
        };
        proof {
            r.variables.lemma_wf();
        }
        r
    }

    /// The elements and the variables are dropped.
    fn clear(&mut self)
        ensures
            final(self).wf(),
            final(self).text() == old(self).text(),
            final(self).source() == old(self).source(),
            final(self).top() is None,
            final(self).tree().len() == 0,
            final(self).names().len() == 0,
            final(self).values().len() == 0,
    {
        self.elements.clear();
        self.variables.clear();
        self.top_node = None;
    }

    /// Gives the expression a new formula, which is not compiled yet.
    pub fn set_expression(&mut self, expression: String)
        ensures
            final(self).wf(),
            final(self).text() == expression@,
            final(self).top() is None,
            final(self).tree().len() == 0,
            final(self).names().len() == 0,
            final(self).values().len() == 0,
    {
        self.clear();
        self.expression = expression;
    }

    /// The formula.
    pub fn string(&self) -> (r: &str)
        ensures
            r@ == self.text(),
    {
        self.expression.as_str()
    }

    /// The names of the variables, each at its slot.
    pub fn variables_iter(&self) -> (names: Vec<Vec<u8>>)
        requires
            self.wf(),
        ensures
            names@.len() == self.names().len(),
            forall|i: int| 0 <= i < names@.len() ==> #[trigger] names@[i]@ == self.names()[i],
    {
        self.variables.identifiers()
    }

    /// The elements of the tree.
    pub fn elements(&self) -> (r: &[ParseElement<T, LANES>])
        ensures
            views(r@) == self.tree(),
    {
        self.elements.as_slice()
    }

    /// The place of the root of the tree, once the formula is compiled.
    pub fn top_node(&self) -> (r: Option<usize>)
        ensures
            r == self.top(),
    {
        self.top_node
    }

    /// The value of the variable of a slot.
    pub fn variable(&self, index: usize) -> (r: Option<Value<LANES>>)
        ensures
            index < self.values().len() ==> r == Some(self.values()[index as int]),
            index >= self.values().len() ==> r.is_none(),
    {
        self.variables.index(index)
    }

    /// The slot of the variable of a name.
    pub fn variable_index(&self, identifier: &str) -> (r: Option<usize>)
        requires
            self.wf(),
        ensures
            slot_of(self.names(), identifier.spec_bytes()) == (match r {
                Some(i) => Some(i as int),
                None => None,
            }),
    {
        self.variables.find(identifier.as_bytes())
    }

    /// Compiles the formula: lexes it, promotes the tokens to nodes, links
    /// the nodes into a tree and gives every call its arguments.
    ///
    /// A formula is compiled once: a second call fails and changes nothing.
    /// A formula that cannot be compiled leaves no elements and no variables
    /// behind. After a compilation every variable holds the integer zero.
    pub fn compile<P: Fn(&[u8]) -> Option<u64>>(&mut self, parser: &P) -> (r: Result<(), Error>)
        requires
            old(self).wf(),
            is_float_parser(parser),
        ensures
            final(self).wf(),
            final(self).text() == old(self).text(),
            final(self).source() == old(self).source(),
            old(self).top() is Some ==> {
                &&& r == Err::<(), Error>(Error::AlreadyCompiled)
                &&& final(self).top() == old(self).top()
                &&& final(self).tree() == old(self).tree()
                &&& final(self).names() == old(self).names()
                &&& final(self).values() == old(self).values()
            },
            old(self).top() is None ==> (forall|reading: spec_fn(Seq<u8>) -> Option<u64>|
                reads_by(parser, reading) ==> (match compiled::<T, LANES>(
                    old(self).source(),
                    reading,
                ) {
                    Ok(c) => {
                        &&& r == Ok::<(), Error>(())
                        &&& final(self).top() == Some(c.top)
                        &&& final(self).tree() == c.elements
                        &&& final(self).names() == c.names
                        &&& final(self).values() == zeros::<LANES>(c.names.len())
                    },
                    Err(e) => r == Err::<(), Error>(e),
                })),
            r is Ok <==> final(self).top() is Some && old(self).top() is None,
            r is Err && old(self).top() is None ==> {
                &&& final(self).top() is None
                &&& final(self).tree().len() == 0
                &&& final(self).names().len() == 0
                &&& final(self).values().len() == 0
            },
    {
        if self.top_node.is_some() {
            return Err(Error::AlreadyCompiled);
        }
        proof {
            self.variables.lemma_wf();
        }
        let source = self.expression.as_str().as_bytes();
        if source.len() == 0 {
            return Err(Error::EmptyExpression);
        }
        if let Err(e) = Self::to_tokens(&mut self.elements, source) {
            self.elements.clear();
            self.variables.clear();
            return Err(e);
        }
        assert(self.variables.names() =~= Seq::<Seq<u8>>::empty());
        let count = self.elements.len();
        let ghost tokens = views(self.elements@);
        if let Err(e) = Self::to_nodes::<MAX_NAMESPACES, P>(
            &mut self.elements,
            &mut self.variables,
            source,
            parser,
        ) {
            self.elements.clear();
            self.variables.clear();
            return Err(e);
        }
        let ghost promoted_elements = views(self.elements@);
        let top = Self::set_indices(&mut self.elements);
        let ghost linked = views(self.elements@);
        if let Err(e) = Self::set_function_args(&mut self.elements) {
            self.elements.clear();
            self.variables.clear();
            return Err(e);
        }
        self.top_node = Some(top);
        proof {
            self.variables.lemma_wf();
            assert(self.variables.values() =~= zeros::<LANES>(self.variables.names().len()));
            let capacity = T::capacity();
            lemma_segment_keeps(linked, linked.len(), capacity);
            assert forall|i: int| 0 <= i < views(self.elements@).len() implies match (
            #[trigger] views(self.elements@)[i]) {
                ElementView::Node(NodeView::Variable { index }) => index
                    < self.variables.names().len(),
                ElementView::Node(NodeView::Function { args, .. }) => args.len() <= capacity,
                _ => true,
            } by {
                assert(linked[i] == super::linking::linked(promoted_elements, i));
                match promoted_elements[i] {
                    ElementView::Node(NodeView::Function { .. }) => {
                        lemma_scan_bounded(shapes(linked), scan_start(), i + 1, capacity);
                    },
                    _ => {},
                }
            }
        }
        Ok(())
    }

    /// Folds what is known without the variables: every instruction on
    /// known operands, and every call of a constant function with known
    /// arguments, is replaced by its value, from the root down. A tree whose
    /// links run in a circle is left as it is, and so is a formula that is
    /// not compiled.
    pub fn optimize<U: Fn(FloatOp) -> u64>(&mut self, unit: &U) -> (r: Result<(), Error>)
        requires
            old(self).wf(),
            is_float_unit(unit),
        ensures
            final(self).wf(),
            final(self).text() == old(self).text(),
            final(self).top() == old(self).top(),
            final(self).names() == old(self).names(),
            final(self).values() == old(self).values(),
            covers(old(self).tree(), final(self).tree()),
            match old(self).top() {
                Some(top) => r == Ok::<(), Error>(()) && forall|rule: spec_fn(FloatOp) -> u64|
                    works_by(unit, rule) ==> final(self).tree() == optimized(
                        old(self).tree(),
                        rule,
                        top,
                    ),
                None => r == Err::<(), Error>(Error::NotCompiled) && final(self).tree() ==
                    old(self).tree(),
            },
    {
        match self.top_node {
            Some(top) => {
                let depth = self.elements.len();
                if Self::is_deeper(&self.elements, top, depth) {
                    return Ok(());
                }
                Self::optimize_recursive(&mut self.elements, unit, top, depth);
                proof {
                    let before = views(old(self).elements@);
                    assert forall|i: int| 0 <= i < before.len() implies match (
                    #[trigger] views(self.elements@)[i]) {
                        ElementView::Node(NodeView::Variable { index }) => index
                            < self.variables.names().len(),
                        ElementView::Node(NodeView::Function { args, .. }) => args.len()
                            <= T::capacity(),
                        _ => true,
                    } by {
                        assert(views(self.elements@)[i] == before[i] || super::settling::is_literal(
                            views(self.elements@)[i],
                        ));
                        assert(match before[i] {
                            ElementView::Node(NodeView::Variable { index }) => index
                                < self.variables.names().len(),
                            ElementView::Node(NodeView::Function { args, .. }) => args.len()
                                <= T::capacity(),
                            _ => true,
                        });
                    }
                }
                Ok(())
            },
            None => Err(Error::NotCompiled),
        }
    }

    /// Gives the variable of that name a new value. The slots stay as they
    /// are.
    pub fn set_variable(&mut self, identifier: &str, value: Value<LANES>) -> (r: Result<(), Error>)
        requires
            old(self).wf(),
        ensures
            final(self).wf(),
            final(self).text() == old(self).text(),
            final(self).top() == old(self).top(),
            final(self).tree() == old(self).tree(),
            final(self).names() == old(self).names(),
            match slot_of(old(self).names(), identifier.spec_bytes()) {
                Some(slot) => r == Ok::<(), Error>(()) && final(self).values() ==
                    old(self).values().update(slot, value),
                None => r == Err::<(), Error>(Error::InvalidVariable) && final(self).values()
                    == old(self).values(),
            },
    {
        self.variables.set(identifier.as_bytes(), value)
    }

    /// Gives the variable of that slot a new value. The slots stay as they
    /// are.
    pub fn set_variable_by_index(&mut self, index: usize, value: Value<LANES>) -> (r: Result<
        (),
        Error,
    >)
        requires
            old(self).wf(),
        ensures
            final(self).wf(),
            final(self).text() == old(self).text(),
            final(self).top() == old(self).top(),
            final(self).tree() == old(self).tree(),
            final(self).names() == old(self).names(),
            index < old(self).values().len() ==> r == Ok::<(), Error>(()) && final(self).values()
                == old(self).values().update(index as int, value),
            index >= old(self).values().len() ==> r == Err::<(), Error>(Error::InvalidVariable)
                && final(self).values() == old(self).values(),
    {
        self.variables.set_by_index(index, value)
    }

    /// Turns every literal of the tree and the value of every variable into
    /// a vector, so that the formula is worked out for a vector of values at
    /// once.
    pub fn to_simd<U: Fn(FloatOp) -> u64>(&mut self, unit: &U)
        requires
            old(self).wf(),
            is_float_unit(unit),
        ensures
            final(self).wf(),
            final(self).text() == old(self).text(),
            final(self).top() == old(self).top(),
            final(self).names() == old(self).names(),
            covers(old(self).tree(), final(self).tree()),
            final(self).values().len() == old(self).values().len(),
            forall|rule: spec_fn(FloatOp) -> u64|
                works_by(unit, rule) ==> final(self).tree() == spread_tree(old(self).tree(), rule),
            forall|rule: spec_fn(FloatOp) -> u64|
                works_by(unit, rule) ==> final(self).values() == spread_values(
                    old(self).values(),
                    rule,
                ),
    {
        let mut i: usize = 0;
        while i < self.elements.len()
            invariant
                i <= self.elements@.len(),
                self.elements@.len() == old(self).elements@.len(),
                self.variables == old(self).variables,
                self.expression == old(self).expression,
                self.top_node == old(self).top_node,
                is_float_unit(unit),
                covers(views(old(self).elements@), views(self.elements@)),
                forall|rule: spec_fn(FloatOp) -> u64|
                    works_by(unit, rule) ==> (forall|k: int|
                        0 <= k < i ==> views(self.elements@)[k] == spread_tree(
                            views(old(self).elements@),
                            rule,
                        )[k]),
                forall|k: int|
                    i <= k < self.elements@.len() ==> views(self.elements@)[k] == views(
                        old(self).elements@,
                    )[k],
            decreases self.elements@.len() - i,
        {
            let found = match &self.elements[i] {
                ParseElement::Node(Node::Literal(value)) => Some(*value),
                _ => None,
            };
            assert(views(self.elements@)[i as int] == views(old(self).elements@)[i as int]);
            if let Some(mut value) = found {
                value.to_simd(unit);
                Self::set_node(&mut self.elements, i, Node::Literal(value));
            }
            i += 1;
        }
        assert forall|rule: spec_fn(FloatOp) -> u64| works_by(unit, rule) implies views(
            self.elements@,
        ) == spread_tree(views(old(self).elements@), rule) by {
            assert(views(self.elements@) =~= spread_tree(views(old(self).elements@), rule));
        }
        self.variables.spread_all(unit);
        proof {
            self.variables.lemma_wf();
            old(self).variables.lemma_wf();
            assert forall|rule: spec_fn(FloatOp) -> u64| works_by(
                unit,
                rule,
            ) implies self.variables.values() == spread_values(
                old(self).variables.values(),
                rule,
            ) by {
                assert(self.variables.values() =~= spread_values(
                    old(self).variables.values(),
                    rule,
                ));
            }
            let before = views(old(self).elements@);
            assert forall|i: int| 0 <= i < before.len() implies match (
            #[trigger] views(self.elements@)[i]) {
                ElementView::Node(NodeView::Variable { index }) => index
                    < self.variables.names().len(),
                ElementView::Node(NodeView::Function { args, .. }) => args.len()
                    <= T::capacity(),
                _ => true,
            } by {
                assert(views(self.elements@)[i] == before[i] || super::settling::is_literal(
                    views(self.elements@)[i],
                ));
                assert(match before[i] {
                    ElementView::Node(NodeView::Variable { index }) => index
                        < self.variables.names().len(),
                    ElementView::Node(NodeView::Function { args, .. }) => args.len()
                        <= T::capacity(),
                    _ => true,
                });
            }
        }
    }

    /// Works out the value of the formula for the values that the variables
    /// hold.
    pub fn eval<U: Fn(FloatOp) -> u64>(&self, unit: &U) -> (r: Result<Value<LANES>, Error>)
        requires
            is_float_unit(unit),
        ensures
            match self.top() {
                Some(top) => forall|rule: spec_fn(FloatOp) -> u64|
                    works_by(unit, rule) ==> r == walk(
                        self.tree(),
                        self.values(),
                        rule,
                        top,
                        self.tree().len(),
                    ),
                None => r == Err::<Value<LANES>, Error>(Error::NotCompiled),
            },
    {
        match self.top_node {
            Some(top) => Self::eval_recursive(
                &self.elements,
                &self.variables,
                unit,
                top,
                self.elements.len(),
            ),
            None => Err(Error::NotCompiled),
        }
    }
}

impl<T: Function<LANES>, const LANES: usize> Default for Expression<T, LANES> {
    /// An expression without a formula.
    fn default() -> (r: Self)
        ensures
            r.wf(),
            r.text() == Seq::<char>::empty(),
            r.top() is None,
            r.tree().len() == 0,
            r.names().len() == 0,
            r.values().len() == 0,
    {
        Expression::new(String::new())
    }
}

} // verus!
