//! Bounded LIFO of return addresses with a fixed capacity of sixteen.

use vstd::prelude::*;

verus! {

/// Number of return addresses the stack can hold at once.
pub const STACK_SIZE: usize = 16;

/// A bounded stack of 16-bit return addresses.  Pushing onto a full stack
/// and popping from an empty one are rejected, never silent.
pub struct Stack {
    slots: [u16; STACK_SIZE],
    sp: usize,
}

/// Why a stack operation was refused.
#[derive(Debug, Clone, Copy, PartialEq, Eq)]
pub enum StackError {
    PushToFullStack,
    PopFromEmptyStack,
}

impl View for Stack {
    type V = Seq<u16>;

    /// The abstract value of the stack: the pushed addresses, bottom first.
    closed spec fn view(&self) -> Seq<u16> {
        self.slots@.take(self.sp as int)
    }
}

#[verifier::type_invariant]
spec fn stack_inv(s: &Stack) -> bool {
    s.sp <= STACK_SIZE
}

impl Stack {
    /// Creates an empty stack.
    pub fn new() -> (s: Self)
        ensures
            s@ == Seq::<u16>::empty(),
    {
        let s = Stack { slots: [0; STACK_SIZE], sp: 0 };
        proof {
            assert(s@ =~= Seq::<u16>::empty());
        }
        s
    }

    /// Pushes a return address; fails if and only if the stack already holds
    /// its full capacity of addresses.
    pub fn push(&mut self, value: u16) -> (r: Result<(), StackError>)
        ensures
            old(self)@.len() < STACK_SIZE ==> r == Ok::<(), StackError>(())
                && final(self)@ == old(self)@.push(value),
            old(self)@.len() >= STACK_SIZE ==> r == Err::<(), StackError>(
                StackError::PushToFullStack,
            ) && final(self)@ == old(self)@,
    {
        proof {
            use_type_invariant(&*self);
        }
        if self.sp == STACK_SIZE {
            return Err(StackError::PushToFullStack);
        }
        self.slots[self.sp] = value;
        self.sp = self.sp + 1;
        proof {
            assert(self@ =~= old(self)@.push(value));
        }
        Ok(())
    }

    /// Pops the most recently pushed address; fails if and only if the stack
    /// is empty.  Ownership of the top element transfers to the caller.
    pub fn pop(&mut self) -> (r: Result<u16, StackError>)
        ensures
            old(self)@.len() > 0 ==> r == Ok::<u16, StackError>(old(self)@.last())
                && final(self)@ == old(self)@.drop_last(),
            old(self)@.len() == 0 ==> r == Err::<u16, StackError>(
                StackError::PopFromEmptyStack,
            ) && final(self)@ == old(self)@,
    {
        proof {
            use_type_invariant(&*self);
        }
        if self.sp == 0 {
            return Err(StackError::PopFromEmptyStack);
        }
        self.sp = self.sp - 1;
        let value = self.slots[self.sp];
        proof {
            assert(self@ =~= old(self)@.drop_last());
        }
        Ok(value)
    }
}

} // verus!
