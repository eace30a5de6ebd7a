use vstd::prelude::*;

verus! {

/// A last-in, first-out stack backed by a `Vec<T>`.
///
/// Its view is the sequence of elements from bottom to top: the last element
/// of the view is the top of the stack.
pub struct Stack<T>(Vec<T>);

impl<T> View for Stack<T> {
    type V = Seq<T>;

    closed spec fn view(&self) -> Seq<T> {
        self.0@
    }
}

impl<T> Default for Stack<T> {
    /// An empty stack.
    fn default() -> (r: Self)
        ensures
            r@ == Seq::<T>::empty(),
    {
        Stack(Vec::new())
    }
}

impl<T> Stack<T> {
    /// Check if the stack is empty.
    pub fn is_empty(&self) -> (r: bool)
        ensures
            r <==> self@.len() == 0,
    {
        self.0.is_empty()
    }

    /// Peek the value at the top of the stack.
    ///
    /// The stack must not be empty: looking into an empty stack is a
    /// programming error.
    pub fn peek(&self) -> (r: &T)
        requires
            self@.len() > 0,
        ensures
            *r == self@.last(),
    {
        self.0.last().expect("cannot peek into an empty stack")
    }

    /// Pop a value off the top of the stack.
    ///
    /// The stack must not be empty: popping from an empty stack is a
    /// programming error.
    pub fn pop(&mut self) -> (r: T)
        requires
            old(self)@.len() > 0,
        ensures
            r == old(self)@.last(),
            final(self)@ == old(self)@.drop_last(),
    {
        self.0.pop().expect("cannot pop from an empty stack")
    }

    /// Push a value onto the top of the stack.
    pub fn push(&mut self, value: T)
        ensures
            final(self)@ == old(self)@.push(value),
    {
        self.0.push(value)
    }
}

} // verus!
