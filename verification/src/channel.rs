//! The queue of a channel of bounded length.

use std::collections::VecDeque;
use vstd::prelude::*;

verus! {

/// The queue of a channel of bounded length: what was sent and not yet
/// received, oldest first. Waiting for room or for a value is the caller's
/// part; the queue says when there is neither.
pub struct Channel<T> {
    max: usize,
    buf: VecDeque<T>,
}

impl<T> View for Channel<T> {
    type V = Seq<T>;

    /// The values in the queue, oldest first.
    closed spec fn view(&self) -> Seq<T> {
        self.buf@
    }
}

impl<T> Channel<T> {
    /// The number of values that the queue holds at most.
    pub closed spec fn capacity(self) -> usize {
        self.max
    }

    /// The queue holds a value at least, and never more than its capacity.
    pub open spec fn wf(self) -> bool {
        0 < self.capacity() && self@.len() <= self.capacity()
    }

    /// An empty queue for at most `max` values.
    pub fn new(max: usize) -> (r: Self)
        requires
            max > 0,
        ensures
            r.wf(),
            r.capacity() == max,
            r@ == Seq::<T>::empty(),
    {
        Channel { max, buf: VecDeque::new() }
    }

    /// The number of values in the queue.
    pub fn len(&self) -> (r: usize)
        ensures
            r == self@.len(),
    {
        self.buf.len()
    }

    /// Tells whether there is no room for another value.
    pub fn is_full(&self) -> (r: bool)
        requires
            self.wf(),
        ensures
            r == (self@.len() == self.capacity()),
    {
        self.buf.len() >= self.max
    }

    /// Puts `data` at the back of the queue if there is room; hands it back
    /// if there is none.
    pub fn try_send(&mut self, data: T) -> (r: Result<(), T>)
        requires
            old(self).wf(),
        ensures
            final(self).wf(),
            final(self).capacity() == old(self).capacity(),
            match r {
                Ok(_) => old(self)@.len() < old(self).capacity() && final(self)@ == old(
                    self,
                )@.push(data),
                Err(back) => old(self)@.len() == old(self).capacity() && back == data
                    && final(self)@ == old(self)@,
            },
    {
        if self.buf.len() >= self.max {
            return Err(data);
        }
        self.buf.push_back(data);
        Ok(())
    }

    /// Takes the oldest value out of the queue, if there is one.
    pub fn try_recv(&mut self) -> (r: Option<T>)
        requires
            old(self).wf(),
        ensures
            final(self).wf(),
            final(self).capacity() == old(self).capacity(),
            match r {
                Some(data) => old(self)@.len() > 0 && data == old(self)@[0] && final(self)@
                    == old(self)@.skip(1),
                None => old(self)@.len() == 0 && final(self)@ == old(self)@,
            },
    {
        self.buf.pop_front()
    }
}

} // verus!
