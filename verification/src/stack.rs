//! A stack of bounded size.
use crate::error::Error;
use vstd::prelude::*;

verus! {

/// A stack that holds at most `SIZE` items.
#[derive(Debug, PartialEq, Eq)]
pub struct Stack<T: Copy, const SIZE: usize> {
    items: Vec<T>,
}

impl<T: Copy, const SIZE: usize> View for Stack<T, SIZE> {
    type V = Seq<T>;

    /// The items, the oldest first.
    closed spec fn view(&self) -> Seq<T> {
        self.items@
    }
}

impl<T: Copy, const SIZE: usize> Stack<T, SIZE> {
    /// No stack ever holds more than `SIZE` items.
    pub closed spec fn wf(&self) -> bool {
        self.items@.len() <= SIZE
    }

    /// A well-formed stack holds no more than `SIZE` items.
    pub proof fn lemma_bounded(&self)
        requires
            self.wf(),
        ensures
            self@.len() <= SIZE,
    {
    }

    /// A stack without items.
    pub fn new() -> (stack: Self)
        ensures
            stack.wf(),
            stack@ == Seq::<T>::empty(),
    {
        Stack { items: Vec::new() }
    }

    /// Puts `val` on top, unless the stack is full.
    pub fn push(&mut self, val: T) -> (result: Result<(), Error>)
        requires
            old(self).wf(),
        ensures
            final(self).wf(),
            old(self)@.len() < SIZE ==> result == Ok::<(), Error>(()) && final(self)@ ==
                old(self)@.push(val),
            old(self)@.len() >= SIZE ==> result == Err::<(), Error>(Error::CapacityExceeded)
                && final(self)@ == old(self)@,
    {
        if self.items.len() >= SIZE {
            return Err(Error::CapacityExceeded);
        }
        self.items.push(val);
        Ok(())
    }

    /// Takes the top item off, if there is one.
    pub fn pop(&mut self) -> (top: Option<T>)
        requires
            old(self).wf(),
        ensures
            final(self).wf(),
            old(self)@.len() == 0 ==> top.is_none() && final(self)@ == old(self)@,
            old(self)@.len() > 0 ==> top == Some(old(self)@.last()) && final(self)@ ==
                old(self)@.drop_last(),
    {
        self.items.pop()
    }

    /// Drops every item.
    pub fn clear(&mut self)
        requires
            old(self).wf(),
        ensures
            final(self).wf(),
            final(self)@ == Seq::<T>::empty(),
    {
        self.items.clear();
    }

    /// The items, the oldest first.
    pub fn slice(&self) -> (items: &[T])
        ensures
            items@ == self@,
    {
        self.items.as_slice()
    }

    /// The items to go through, the oldest first.
    pub fn iter(&self) -> (items: &[T])
        ensures
            items@ == self@,
    {
        self.items.as_slice()
    }

    /// The items as an array, if the stack is full. A stack without capacity
    /// has no item to build an array from, and gives none.
    pub fn full_array(&self) -> (array: Option<[T; SIZE]>)
        requires
            self.wf(),
        ensures
            self@.len() < SIZE || SIZE == 0 ==> array.is_none(),
            self@.len() == SIZE && SIZE > 0 ==> array.is_some() && array.unwrap()@ == self@,
    {
        if self.items.len() == SIZE {
            if SIZE == 0 {
                return None;
            }
            let mut array: [T; SIZE] = [self.items[0]; SIZE];
            let mut i: usize = 0;
            while i < SIZE
                invariant
                    i <= SIZE,
                    self.items@.len() == SIZE,
                    forall|k: int| 0 <= k < i ==> array@[k] == self.items@[k],
                decreases SIZE - i,
            {
                array[i] = self.items[i];
                i += 1;
            }
            assert(array@ =~= self@);
            Some(array)
        } else {
            None
        }
    }

    /// The number of items.
    pub fn len(&self) -> (len: usize)
        ensures
            len == self@.len(),
    {
        self.items.len()
    }
}

} // verus!
