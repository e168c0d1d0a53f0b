use vstd::prelude::*;

verus! {

/// The pending work of a pool: a stack, so the most recently pushed item is
/// the next one to come out.
pub struct TaskQueue<T> {
    items: Vec<T>,
}

impl<T> View for TaskQueue<T> {
    type V = Seq<T>;

    /// The pending items in order of insertion; the last one is the top.
    closed spec fn view(&self) -> Seq<T> {
        self.items@
    }
}

impl<T> TaskQueue<T> {
    pub fn new() -> (r: Self)
        ensures
            r@ == Seq::<T>::empty(),
    {
        TaskQueue { items: Vec::new() }
    }

    pub fn len(&self) -> (r: usize)
        ensures
            r == self@.len(),
    {
        self.items.len()
    }

    pub fn is_empty(&self) -> (r: bool)
        ensures
            r == (self@.len() == 0),
    {
        self.items.len() == 0
    }

    /// Puts `item` on top, so that it leaves before everything already queued.
    pub fn push(&mut self, item: T)
        ensures
            final(self)@ == old(self)@.push(item),
    {
        self.items.push(item);
    }

    /// Takes the most recently pushed item, if any.
    pub fn pop(&mut self) -> (r: Option<T>)
        ensures
            old(self)@.len() == 0 ==> r is None && final(self)@ == old(self)@,
            old(self)@.len() > 0 ==> r == Some(old(self)@.last()) && final(self)@ == old(
                self,
            )@.drop_last(),
    {
        self.items.pop()
    }
}

} // verus!
