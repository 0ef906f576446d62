use vstd::prelude::*;
use crate::error::ExprError;

verus! {

/// A last-in, first-out stack. Its view lists the elements from the bottom
/// (index 0) to the top (the last index).
#[derive(Debug)]
pub struct Stack<T> {
    elements: Vec<T>,
}

impl<T> View for Stack<T> {
    type V = Seq<T>;

    closed spec fn view(&self) -> Seq<T> {
        self.elements@
    }
}

impl<T> Stack<T> {
    /// An empty stack.
    pub fn new() -> (r: Self)
        ensures
            r@ == Seq::<T>::empty(),
    {
        Stack { elements: Vec::new() }
    }

    /// The number of elements on the stack.
    pub fn len(&self) -> (r: usize)
        ensures
            r == self@.len(),
    {
        self.elements.len()
    }

    /// Puts `element` on top.
    pub fn push(&mut self, element: T)
        ensures
            final(self)@ == old(self)@.push(element),
    {
        self.elements.push(element);
    }

    /// Takes the top element off; fails with `StackUnderflow` on an empty
    /// stack, which is then left as it was.
    pub fn pop(&mut self) -> (r: Result<T, ExprError>)
        ensures
            old(self)@.len() == 0 ==> r == Err::<T, ExprError>(ExprError::StackUnderflow)
                && final(self)@ == old(self)@,
            old(self)@.len() > 0 ==> r == Ok::<T, ExprError>(old(self)@.last())
                && final(self)@ == old(self)@.drop_last(),
    {
        match self.elements.pop() {
            Some(e) => Ok(e),
            None => Err(ExprError::StackUnderflow),
        }
    }

    /// The top element, if there is one, left in place.
    pub fn peek(&self) -> (r: Option<&T>)
        ensures
            self@.len() == 0 ==> r is None,
            self@.len() > 0 ==> r == Some(&self@.last()),
    {
        let n = self.elements.len();
        if n == 0 {
            None
        } else {
            Some(&self.elements[n - 1])
        }
    }
}

} // verus!
