//! A vector-like structure backed by a fixed-size buffer.
//!
//! `InlineVec<T, C>` holds at most `C` elements of type `T` and fails loudly
//! on overflow and underflow; the interpreter uses it for its bounded control
//! and call stacks. Slots beyond the live prefix always hold `T::default()`.

use vstd::prelude::*;
use vstd::pervasive::VecAdditionalExecFns;
use vstd::slice::slice_subrange;

use crate::errors::{VMError, VMResult};

verus! {

#[derive(Debug)]
pub struct InlineVec<T, const C: usize> {
    /// Number of live elements at the front of the buffer.
    pub len: u32,
    /// The backing buffer; always exactly `C` slots long.
    pub array: Vec<T>,
}

impl<T, const C: usize> View for InlineVec<T, C> {
    type V = Seq<T>;

    /// The live prefix of the backing buffer.
    open spec fn view(&self) -> Seq<T> {
        self.array@.subrange(0, self.len as int)
    }
}

impl<T: Default + Copy, const C: usize> InlineVec<T, C> {
    /// The backing buffer is full-sized and the live prefix fits in it.
    pub open spec fn wf(&self) -> bool {
        &&& self.array@.len() == C
        &&& self.len <= C
        &&& C <= u32::MAX
    }

    /// An empty stack over a zeroed buffer of `C` default elements.
    pub fn new() -> (r: InlineVec<T, C>)
        requires
            C <= u32::MAX,
        ensures
            r.wf(),
            r@ == Seq::<T>::empty(),
    {
        let mut array: Vec<T> = Vec::new();
        let mut i: usize = 0;
        while i < C
            invariant
                i <= C,
                array@.len() == i,
            decreases C - i,
        {
            array.push(T::default());
            i += 1;
        }
        let r = InlineVec { len: 0u32, array };
        assert(r@ =~= Seq::<T>::empty());
        r
    }

    pub fn capacity(&self) -> (r: usize)
        ensures
            r == C,
    {
        C
    }

    pub fn len(&self) -> (r: usize)
        requires
            self.wf(),
        ensures
            r == self@.len(),
    {
        self.len as usize
    }

    pub fn is_empty(&self) -> (r: bool)
        requires
            self.wf(),
        ensures
            r == (self@.len() == 0),
    {
        self.len == 0
    }

    pub fn is_full(&self) -> (r: bool)
        requires
            self.wf(),
        ensures
            r == (self@.len() == C),
    {
        self.len as usize == C
    }

    pub fn remaining_capacity(&self) -> (r: usize)
        requires
            self.wf(),
        ensures
            r == C - self@.len(),
    {
        C - self.len as usize
    }

    /// Append `val`; a push on a full stack fails with `StackOverflow` and
    /// leaves the stack unchanged.
    pub fn push(&mut self, val: T) -> (r: VMResult<()>)
        requires
            old(self).wf(),
        ensures
            final(self).wf(),
            old(self)@.len() == C ==> r == Err::<(), VMError>(VMError::StackOverflow) && final(self)@ == old(self)@,
            old(self)@.len() < C ==> r == Ok::<(), VMError>(()) && final(self)@ == old(self)@.push(val),
    {
        if self.len as usize == C {
            return Err(VMError::StackOverflow);
        }
        self.array.set(self.len as usize, val);
        self.len = self.len + 1;
        assert(self@ =~= old(self)@.push(val));
        Ok(())
    }

    /// Remove and return the top; a pop on an empty stack fails with
    /// `StackUnderflow` and leaves the stack unchanged.
    pub fn pop(&mut self) -> (r: VMResult<T>)
        requires
            old(self).wf(),
        ensures
            final(self).wf(),
            old(self)@.len() == 0 ==> r == Err::<T, VMError>(VMError::StackUnderflow) && final(self)@ == old(self)@,
            old(self)@.len() > 0 ==> r == Ok::<T, VMError>(old(self)@.last()) && final(self)@
                == old(self)@.drop_last(),
    {
        if self.len == 0 {
            return Err(VMError::StackUnderflow);
        }
        self.len = self.len - 1;
        let value = self.array[self.len as usize];
        self.array.set(self.len as usize, T::default());
        assert(self@ =~= old(self)@.drop_last());
        Ok(value)
    }

    /// Return a copy of the top; `StackUnderflow` when empty.
    pub fn last(&self) -> (r: VMResult<T>)
        requires
            self.wf(),
        ensures
            self@.len() == 0 ==> r == Err::<T, VMError>(VMError::StackUnderflow),
            self@.len() > 0 ==> r == Ok::<T, VMError>(self@.last()),
    {
        if self.len == 0 {
            return Err(VMError::StackUnderflow);
        }
        Ok(self.array[self.len as usize - 1])
    }

    /// Overwrite the top; `StackUnderflow` when empty.
    pub fn set_last(&mut self, val: T) -> (r: VMResult<()>)
        requires
            old(self).wf(),
        ensures
            final(self).wf(),
            old(self)@.len() == 0 ==> r == Err::<(), VMError>(VMError::StackUnderflow) && final(self)@ == old(self)@,
            old(self)@.len() > 0 ==> r == Ok::<(), VMError>(()) && final(self)@ == old(self)@.update(old(self)@.len() - 1, val),
    {
        if self.len == 0 {
            return Err(VMError::StackUnderflow);
        }
        self.array.set(self.len as usize - 1, val);
        assert(self@ =~= old(self)@.update(old(self)@.len() - 1, val));
        Ok(())
    }

    /// The live prefix as a slice.
    pub fn as_slice(&self) -> (r: &[T])
        requires
            self.wf(),
        ensures
            r@ == self@,
    {
        slice_subrange(self.array.as_slice(), 0, self.len as usize)
    }
}

} // verus!
