use vstd::prelude::*;

verus! {

/// A first-in, first-out queue backed by a `Vec<T>`.
///
/// Its view is the sequence of elements from front to back: `enqueue` adds at
/// the end of the view, `dequeue` takes from its start.
#[derive(Debug, PartialEq)]
pub struct Queue<T>(Vec<T>);

impl<T> View for Queue<T> {
    type V = Seq<T>;

    closed spec fn view(&self) -> Seq<T> {
        self.0@
    }
}

impl<T> Default for Queue<T> {
    /// An empty queue.
    fn default() -> (r: Self)
        ensures
            r@ == Seq::<T>::empty(),
    {
        Queue(Vec::new())
    }
}

impl<T> Queue<T> {
    /// Create a new queue holding `input`, its first element at the front.
    pub fn new(input: Vec<T>) -> (r: Self)
        ensures
            r@ == input@,
    {
        Queue(input)
    }

    /// Remove the element at the front of the queue.
    ///
    /// The queue must not be empty: dequeuing from an empty queue is a
    /// programming error.
    pub fn dequeue(&mut self) -> (r: T)
        requires
            old(self)@.len() > 0,
        ensures
            r == old(self)@[0],
            final(self)@ == old(self)@.drop_first(),
    {
        self.0.remove(0)
    }

    /// Enqueue an item at the back of the queue.
    pub fn enqueue(&mut self, value: T)
        ensures
            final(self)@ == old(self)@.push(value),
    {
        self.0.push(value)
    }

    /// Check if the queue is empty.
    pub fn is_empty(&self) -> (r: bool)
        ensures
            r <==> self@.len() == 0,
    {
        self.0.is_empty()
    }

    /// Peek the value at the front of the queue.
    ///
    /// The queue must not be empty: looking into an empty queue is a
    /// programming error.
    pub fn peek(&self) -> (r: &T)
        requires
            self@.len() > 0,
        ensures
            *r == self@[0],
    {
        self.0.first().expect("cannot peek into an empty queue")
    }
}

} // verus!
