use vstd::prelude::*;

verus! {

/// A bounded first-in first-out queue of events awaiting the next tick. When
/// full, a push drops the oldest event to make room.
pub struct BoundedQueue<T> {
    items: Vec<T>,
    capacity: usize,
}

impl<T> View for BoundedQueue<T> {
    type V = Seq<T>;

    closed spec fn view(&self) -> Seq<T> {
        self.items@
    }
}

impl<T> BoundedQueue<T> {
    pub closed spec fn capacity(&self) -> nat {
        self.capacity as nat
    }

    pub closed spec fn wf(&self) -> bool {
        0 < self.capacity && self.items@.len() <= self.capacity
    }

    /// An empty queue that holds at most `capacity` events.
    pub fn new(capacity: usize) -> (r: BoundedQueue<T>)
        requires
            capacity > 0,
        ensures
            r.wf(),
            r@ == Seq::<T>::empty(),
            r.capacity() == capacity,
    {
        BoundedQueue { items: Vec::new(), capacity }
    }

    /// The number of queued events.
    pub fn len(&self) -> (r: usize)
        ensures
            r == self@.len(),
    {
        self.items.len()
    }

    /// Appends `item`. A full queue first drops its oldest event, which is
    /// returned.
    pub fn push(&mut self, item: T) -> (r: Option<T>)
        requires
            old(self).wf(),
        ensures
            final(self).wf(),
            final(self).capacity() == old(self).capacity(),
            old(self)@.len() < old(self).capacity() ==> r.is_none() && final(self)@ == old(
                self,
            )@.push(item),
            old(self)@.len() >= old(self).capacity() ==> r == Some(old(self)@[0]) && final(self)@
                == old(self)@.drop_first().push(item),
    {
        let dropped = if self.items.len() >= self.capacity {
            Some(self.items.remove(0))
        } else {
            None
        };
        self.items.push(item);
        dropped
    }

    /// Takes every queued event, oldest first, leaving the queue empty.
    pub fn drain(&mut self) -> (r: Vec<T>)
        requires
            old(self).wf(),
        ensures
            final(self).wf(),
            final(self).capacity() == old(self).capacity(),
            r@ == old(self)@,
            final(self)@ == Seq::<T>::empty(),
    {
        let mut taken: Vec<T> = Vec::new();
        std::mem::swap(&mut self.items, &mut taken);
        taken
    }
}

} // verus!
