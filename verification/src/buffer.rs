//! The fixed-capacity buffer that collects samples for one analysis window.

use vstd::prelude::*;

verus! {

/// The part of `incoming` that a buffer holding `held` samples, with room for
/// `capacity`, takes in: as many leading samples as still fit.
pub open spec fn accepted<S>(held: int, capacity: int, incoming: Seq<S>) -> Seq<S> {
    if held >= capacity {
        Seq::empty()
    } else if incoming.len() <= capacity - held {
        incoming
    } else {
        incoming.subrange(0, capacity - held)
    }
}

/// An ordered run of samples that never grows past its capacity.
pub struct SampleBuffer<S> {
    slots: Vec<S>,
    capacity: usize,
}

impl<S> View for SampleBuffer<S> {
    type V = Seq<S>;

    /// The samples held, oldest first.
    closed spec fn view(&self) -> Seq<S> {
        self.slots@
    }
}

impl<S: Copy> SampleBuffer<S> {
    /// The number of samples that make a full buffer.
    pub closed spec fn spec_capacity(&self) -> int {
        self.capacity as int
    }

    /// The buffer holds no more than its capacity.
    pub open spec fn wf(&self) -> bool {
        self@.len() <= self.spec_capacity()
    }

    /// An empty buffer with room for `capacity` samples.
    pub fn new(capacity: usize) -> (buffer: SampleBuffer<S>)
        ensures
            buffer.wf(),
            buffer@ == Seq::<S>::empty(),
            buffer.spec_capacity() == capacity,
    {
        SampleBuffer { slots: Vec::new(), capacity }
    }

    /// The number of samples that make a full buffer.
    pub fn capacity(&self) -> (capacity: usize)
        ensures
            capacity == self.spec_capacity(),
    {
        self.capacity
    }

    /// The number of samples held.
    pub fn len(&self) -> (len: usize)
        ensures
            len == self@.len(),
    {
        self.slots.len()
    }

    /// Whether the buffer holds a full window.
    pub fn is_full(&self) -> (full: bool)
        requires
            self.wf(),
        ensures
            full == (self@.len() == self.spec_capacity()),
    {
        self.slots.len() >= self.capacity
    }

    /// Appends the leading samples of `incoming` that still fit and drops the
    /// rest. Returns how many were taken.
    pub fn fill(&mut self, incoming: &[S]) -> (taken: usize)
        requires
            old(self).wf(),
        ensures
            final(self).wf(),
            final(self).spec_capacity() == old(self).spec_capacity(),
            final(self)@ == old(self)@ + accepted(
                old(self)@.len() as int,
                old(self).spec_capacity(),
                incoming@,
            ),
            taken == accepted(old(self)@.len() as int, old(self).spec_capacity(), incoming@).len(),
    {
        let room: usize = self.capacity - self.slots.len();
        let taken: usize = if incoming.len() <= room {
            incoming.len()
        } else {
            room
        };
        let mut i: usize = 0;
        while i < taken
            invariant
                i <= taken <= incoming@.len(),
                taken <= room,
                room == self.capacity - old(self).slots@.len(),
                self.capacity == old(self).capacity,
                self.slots@ == old(self).slots@ + incoming@.subrange(0, i as int),
            decreases taken - i,
        {
            self.slots.push(incoming[i]);
            i += 1;
            assert(incoming@.subrange(0, i as int) == incoming@.subrange(0, i - 1).push(
                incoming@[i - 1],
            ));
        }
        assert(incoming@.subrange(0, incoming@.len() as int) == incoming@);
        assert(old(self).slots@ + Seq::<S>::empty() == old(self).slots@);
        taken
    }

    /// Hands out everything held, oldest first, and leaves the buffer empty.
    pub fn drain(&mut self) -> (window: Vec<S>)
        ensures
            window@ == old(self)@,
            final(self)@ == Seq::<S>::empty(),
            final(self).spec_capacity() == old(self).spec_capacity(),
            final(self).wf(),
    {
        let mut window: Vec<S> = Vec::new();
        core::mem::swap(&mut self.slots, &mut window);
        window
    }
}

} // verus!
