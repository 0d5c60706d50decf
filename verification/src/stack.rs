//! Fixed-capacity stack of 16-bit return addresses.
//!
//! The call stack holds at most 16 entries. The executor checks the depth
//! before every push and pop, so the operations themselves may demand room
//! (respectively, a non-empty stack) in their preconditions.

use vstd::prelude::*;

verus! {

/// Greatest number of return addresses the stack can hold.
pub const STACK_CAPACITY: usize = 16;

/// Last-in-first-out store of 16-bit return addresses, capped at
/// [`STACK_CAPACITY`] entries.
pub struct Stack {
    entries: Vec<u16>,
}

impl View for Stack {
    type V = Seq<u16>;

    closed spec fn view(&self) -> Seq<u16> {
        self.entries@
    }
}

impl Stack {
    /// The stack never grows past its fixed capacity.
    pub open spec fn wf(&self) -> bool {
        self@.len() <= STACK_CAPACITY
    }

    /// Creates an empty stack.
    pub fn new() -> (r: Self)
        ensures
            r@ == Seq::<u16>::empty(),
            r.wf(),
    {
        Stack { entries: Vec::new() }
    }

    /// Number of addresses currently held.
    pub fn depth(&self) -> (r: usize)
        ensures
            r == self@.len(),
    {
        self.entries.len()
    }

    /// Appends one address at the current depth.
    pub fn push(&mut self, value: u16)
        requires
            old(self).wf(),
            old(self)@.len() < STACK_CAPACITY,
        ensures
            final(self)@ == old(self)@.push(value),
            final(self).wf(),
    {
        self.entries.push(value);
    }

    /// Removes and returns the most recently pushed address.
    pub fn pop(&mut self) -> (r: u16)
        requires
            old(self).wf(),
            old(self)@.len() > 0,
        ensures
            r == old(self)@.last(),
            final(self)@ == old(self)@.drop_last(),
            final(self).wf(),
    {
        let r = self.entries.pop().unwrap();
        proof {
            assert(final(self)@ =~= old(self)@.drop_last());
        }
        r
    }
}

} // verus!
