//! The variables of a formula.
use super::function::bytes_equal;
use super::value::single::Single;
use super::value::Value;
use crate::error::Error;
use crate::float::{is_float_unit, works_by, FloatOp};
use vstd::prelude::*;
use vstd::slice::slice_to_vec;

verus! {

/// The variables of a formula: the name and the value of each slot.
#[derive(Debug)]
pub struct Variables<const LANES: usize> {
    identifiers: Vec<Vec<u8>>,
    values: Vec<Value<LANES>>,
}

/// The place of a name among names, if it is among them.
pub open spec fn slot_of(names: Seq<Seq<u8>>, name: Seq<u8>) -> Option<int> {
    if exists|i: int| 0 <= i < names.len() && names[i] == name {
        Some(choose|i: int| 0 <= i < names.len() && names[i] == name)
    } else {
        None
    }
}

/// No name stands twice.
pub open spec fn distinct(names: Seq<Seq<u8>>) -> bool {
    forall|i: int, j: int| 0 <= i < j < names.len() ==> names[i] != names[j]
}

/// Among names of which none stands twice, the slot of a name is the place
/// where the name stands.
pub proof fn lemma_slot_of(names: Seq<Seq<u8>>, name: Seq<u8>, i: int)
    requires
        distinct(names),
        0 <= i < names.len(),
        names[i] == name,
    ensures
        slot_of(names, name) == Some(i),
{
    let chosen = slot_of(names, name).unwrap();
    if chosen < i {
        assert(names[chosen] != names[i]);
    } else if chosen > i {
        assert(names[i] != names[chosen]);
    }
}

impl<const LANES: usize> Variables<LANES> {
    /// The names, by slot.
    pub closed spec fn names(&self) -> Seq<Seq<u8>> {
        Seq::new(self.identifiers@.len(), |i: int| self.identifiers@[i]@)
    }

    /// The values, by slot.
    pub closed spec fn values(&self) -> Seq<Value<LANES>> {
        self.values@
    }

    /// Every slot has a name and a value, and no two slots share a name.
    pub closed spec fn wf(&self) -> bool {
        &&& self.identifiers@.len() == self.values@.len()
        &&& distinct(self.names())
    }

    /// What holds of all well-formed variables.
    pub proof fn lemma_wf(&self)
        requires
            self.wf(),
        ensures
            self.names().len() == self.values().len(),
            distinct(self.names()),
    {
    }

    /// Drops every variable.
    pub fn clear(&mut self)
        ensures
            final(self).wf(),
            final(self).names() == Seq::<Seq<u8>>::empty(),
            final(self).values() == Seq::<Value<LANES>>::empty(),
    {
        self.identifiers.clear();
        self.values.clear();
        assert(self.names() =~= Seq::<Seq<u8>>::empty());
    }

    /// No variables, with room for `capacity` of them.
    pub fn with_capacity(capacity: usize) -> (variables: Self)
        ensures
            variables.wf(),
            variables.names() == Seq::<Seq<u8>>::empty(),
            variables.values() == Seq::<Value<LANES>>::empty(),
    {
        let variables = Variables {
            identifiers: Vec::with_capacity(capacity),
            values: Vec::with_capacity(capacity),
        };
        assert(variables.names() =~= Seq::<Seq<u8>>::empty());
        variables
    }

    /// The number of variables.
    pub fn len(&self) -> (len: usize)
        requires
            self.wf(),
        ensures
            len == self.names().len(),
            len == self.values().len(),
    {
        self.values.len()
    }

    /// The slot of a name, if the name has one.
    pub fn find(&self, identifier: &[u8]) -> (slot: Option<usize>)
        requires
            self.wf(),
        ensures
            slot_of(self.names(), identifier@) == (match slot {
                Some(i) => Some(i as int),
                None => None,
            }),
            slot is Some ==> slot.unwrap() < self.names().len()
                && self.names()[slot.unwrap() as int]
                == identifier@,
    {
        let mut i: usize = 0;
        while i < self.identifiers.len()
            invariant
                i <= self.identifiers@.len(),
                self.wf(),
                forall|k: int| 0 <= k < i ==> self.names()[k] != identifier@,
            decreases self.identifiers@.len() - i,
        {
            if bytes_equal(self.identifiers[i].as_slice(), identifier) {
                assert(self.names()[i as int] == identifier@);
                proof {
                    lemma_slot_of(self.names(), identifier@, i as int);
                }
                return Some(i);
            }
            i += 1;
        }
        None
    }

    /// Gives a new name the next slot, with the integer zero as its value.
    pub(crate) fn push(&mut self, identifier: &[u8])
        requires
            old(self).wf(),
            slot_of(old(self).names(), identifier@) is None,
        ensures
            final(self).wf(),
            final(self).names() == old(self).names().push(identifier@),
            final(self).values() == old(self).values().push(Value::Single(Single::Int(0))),
    {
        let name = slice_to_vec(identifier);
        self.identifiers.push(name);
        self.values.push(Value::Single(Single::Int(0)));
        assert(self.names() =~= old(self).names().push(identifier@));
        assert forall|i: int, j: int| 0 <= i < j < self.names().len() implies self.names()[i]
            != self.names()[j] by {
            if j == old(self).names().len() {
                assert(old(self).names()[i] != identifier@);
            } else {
                assert(old(self).names()[i] != old(self).names()[j]);
            }
        }
    }

    /// Gives the variable of that name a new value. The slots stay as they
    /// are.
    pub fn set(&mut self, identifier: &[u8], value: Value<LANES>) -> (r: Result<(), Error>)
        requires
            old(self).wf(),
        ensures
            final(self).wf(),
            final(self).names() == old(self).names(),
            match slot_of(old(self).names(), identifier@) {
                Some(slot) => r == Ok::<(), Error>(()) && final(self).values() ==
                    old(self).values().update(slot, value),
                None => r == Err::<(), Error>(Error::InvalidVariable) && final(self).values()
                    == old(self).values(),
            },
    {
        match self.find(identifier) {
            Some(slot) => {
                self.values[slot] = value;
                assert(self.names() =~= old(self).names());
                Ok(())
            },
            None => Err(Error::InvalidVariable),
        }
    }

    /// Gives the variable of that slot a new value. The slots stay as they
    /// are.
    pub fn set_by_index(&mut self, index: usize, value: Value<LANES>) -> (r: Result<(), Error>)
        requires
            old(self).wf(),
        ensures
            final(self).wf(),
            final(self).names() == old(self).names(),
            index < old(self).values().len() ==> r == Ok::<(), Error>(()) && final(self).values()
                == old(self).values().update(index as int, value),
            index >= old(self).values().len() ==> r == Err::<(), Error>(Error::InvalidVariable)
                && final(self).values() == old(self).values(),
    {
        if index < self.values.len() {
            self.values[index] = value;
            assert(self.names() =~= old(self).names());
            Ok(())
        } else {
            Err(Error::InvalidVariable)
        }
    }

    /// The slot of a name. A name that has none is given the next one.
    pub fn find_or_set(&mut self, identifier: &[u8]) -> (slot: usize)
        requires
            old(self).wf(),
        ensures
            final(self).wf(),
            match slot_of(old(self).names(), identifier@) {
                Some(found) => slot == found && final(self).names() == old(self).names()
                    && final(self).values() == old(self).values(),
                None => slot == old(self).names().len() && final(self).names() ==
                    old(self).names().push(identifier@) && final(self).values() ==
                        old(self).values().push(
                    Value::Single(Single::Int(0)),
                ),
            },
    {
        match self.find(identifier) {
            Some(slot) => slot,
            None => {
                self.push(identifier);
                self.values.len() - 1
            },
        }
    }

    /// The names, by slot.
    pub fn identifiers(&self) -> (names: Vec<Vec<u8>>)
        requires
            self.wf(),
        ensures
            names@.len() == self.names().len(),
            forall|i: int| 0 <= i < names@.len() ==> #[trigger] names@[i]@ == self.names()[i],
    {
        let mut names: Vec<Vec<u8>> = Vec::new();
        let mut i: usize = 0;
        while i < self.identifiers.len()
            invariant
                i <= self.identifiers@.len(),
                names@.len() == i,
                forall|k: int| 0 <= k < i ==> #[trigger] names@[k]@ == self.names()[k],
            decreases self.identifiers@.len() - i,
        {
            names.push(slice_to_vec(self.identifiers[i].as_slice()));
            i += 1;
        }
        names
    }

    /// The value of a slot.
    pub fn index(&self, index: usize) -> (value: Option<Value<LANES>>)
        ensures
            index < self.values().len() ==> value == Some(self.values()[index as int]),
            index >= self.values().len() ==> value.is_none(),
    {
        if index < self.values.len() {
            Some(self.values[index])
        } else {
            None
        }
    }

    /// Turns the value of every slot into a vector.
    pub fn spread_all<U: Fn(FloatOp) -> u64>(&mut self, unit: &U)
        requires
            old(self).wf(),
            is_float_unit(unit),
        ensures
            final(self).wf(),
            final(self).names() == old(self).names(),
            final(self).values().len() == old(self).values().len(),
            forall|rule: spec_fn(FloatOp) -> u64|
                works_by(unit, rule) ==> (forall|i: int|
                    0 <= i < old(self).values().len() ==> #[trigger] final(self).values()[i]
                        == Value::Simd(old(self).values()[i].spread(rule))),
    {
        let mut i: usize = 0;
        while i < self.values.len()
            invariant
                i <= self.values@.len(),
                self.values@.len() == old(self).values@.len(),
                self.identifiers == old(self).identifiers,
                is_float_unit(unit),
                forall|rule: spec_fn(FloatOp) -> u64|
                    works_by(unit, rule) ==> (forall|k: int|
                        0 <= k < i ==> #[trigger] self.values@[k] == Value::Simd(
                            old(self).values@[k].spread(rule),
                        )),
                forall|k: int| i <= k < self.values@.len() ==> self.values@[k] ==
                    old(self).values@[k],
            decreases self.values@.len() - i,
        {
            let mut value = self.values[i];
            value.to_simd(unit);
            self.values[i] = value;
            i += 1;
        }
    }
}

impl<const LANES: usize> Default for Variables<LANES> {
    /// No variables.
    fn default() -> (variables: Self)
        ensures
            variables.wf(),
            variables.names() == Seq::<Seq<u8>>::empty(),
            variables.values() == Seq::<Value<LANES>>::empty(),
    {
        Variables::with_capacity(0)
    }
}

} // verus!
