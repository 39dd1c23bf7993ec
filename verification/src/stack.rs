use vstd::prelude::*;

use std::collections::VecDeque;

use crate::error::EvalError;

verus! {

/// The operand stack of the evaluator: a last-in-first-out container of
/// integers.
///
/// The view of a stack is the sequence of its values with the most recently
/// pushed one at index `0`. A stack lives for a single evaluation: it is
/// created empty at the start and discarded at the end.
pub struct RpnStack {
    stack: VecDeque<i32>,
}

impl View for RpnStack {
    type V = Seq<i32>;

    closed spec fn view(&self) -> Seq<i32> {
        self.stack@
    }
}

impl RpnStack {
    /// A fresh, empty stack.
    pub fn new() -> (s: RpnStack)
        ensures
            s@ == Seq::<i32>::empty(),
    {
        RpnStack { stack: VecDeque::new() }
    }

    /// Appends `value` as the new top of the stack. Always succeeds.
    pub fn push(&mut self, value: i32)
        ensures
            final(self)@ == seq![value] + old(self)@,
    {
        self.stack.push_front(value);
    }

    /// Removes and returns the current top: the most recently pushed value
    /// that is still present (strict LIFO order). Fails with
    /// [`EvalError::StackUnderflow`], leaving the stack unchanged, exactly
    /// when the stack is empty at the time of the call.
    pub fn pop(&mut self) -> (r: Result<i32, EvalError>)
        ensures
            old(self)@.len() > 0 ==> r == Ok::<i32, EvalError>(old(self)@[0])
                && final(self)@ == old(self)@.skip(1),
            old(self)@.len() == 0 ==> r == Err::<i32, EvalError>(EvalError::StackUnderflow)
                && final(self)@ == old(self)@,
    {
        let r = match self.stack.pop_front() {
            Some(value) => Ok(value),
            None => Err(EvalError::StackUnderflow),
        };
        proof {
            if old(self)@.len() > 0 {
                assert(old(self)@.skip(1) =~= old(self)@.subrange(1, old(self)@.len() as int));
            }
        }
        r
    }
}

} // verus!
