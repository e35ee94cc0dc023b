//! The global concurrency limiter: a counting permit pool of fixed
//! capacity that bounds how many expensive generation jobs run at once,
//! independent of how many requests are waiting.

use vstd::prelude::*;

verus! {

/// A counting permit pool. `available` permits can still be handed out;
/// `capacity - available` jobs hold one right now.
pub struct PermitPool {
    capacity: usize,
    available: usize,
}

impl PermitPool {
    /// The fixed number of permits the pool was created with.
    pub closed spec fn spec_capacity(&self) -> usize {
        self.capacity
    }

    /// How many permits are free right now.
    pub closed spec fn spec_available(&self) -> usize {
        self.available
    }

    /// How many permits are held right now.
    pub open spec fn spec_outstanding(&self) -> int {
        self.spec_capacity() - self.spec_available()
    }

    /// No more permits are free than exist.
    pub open spec fn wf(&self) -> bool {
        self.spec_available() <= self.spec_capacity()
    }

    /// A pool with every permit free.
    pub fn new(capacity: usize) -> (r: PermitPool)
        ensures
            r.wf(),
            r.spec_capacity() == capacity,
            r.spec_available() == capacity,
    {
        PermitPool { capacity, available: capacity }
    }

    /// Takes a permit when one is free; returns whether one was taken.
    /// Never hands out more permits than the capacity allows.
    pub fn try_acquire(&mut self) -> (r: bool)
        requires
            old(self).wf(),
        ensures
            final(self).wf(),
            final(self).spec_capacity() == old(self).spec_capacity(),
            r == (old(self).spec_available() > 0),
            r ==> final(self).spec_available() == old(self).spec_available() - 1,
            !r ==> final(self).spec_available() == old(self).spec_available(),
    {
        if self.available > 0 {
            self.available = self.available - 1;
            true
        } else {
            false
        }
    }

    /// Returns a permit to the pool. Only a held permit can be returned,
    /// so the pool never grows past its capacity.
    pub fn release(&mut self)
        requires
            old(self).wf(),
            old(self).spec_outstanding() > 0,
        ensures
            final(self).wf(),
            final(self).spec_capacity() == old(self).spec_capacity(),
            final(self).spec_available() == old(self).spec_available() + 1,
    {
        self.available = self.available + 1;
    }

    /// How many permits are free.
    pub fn available(&self) -> (r: usize)
        ensures
            r == self.spec_available(),
    {
        self.available
    }

    /// The pool's capacity.
    pub fn capacity(&self) -> (r: usize)
        ensures
            r == self.spec_capacity(),
    {
        self.capacity
    }
}

/// However acquisitions and releases interleave, a well-formed pool never
/// has more than `capacity` permits outstanding, and never a negative
/// number.
pub proof fn lemma_outstanding_bounded(p: PermitPool)
    requires
        p.wf(),
    ensures
        0 <= p.spec_outstanding() <= p.spec_capacity(),
{
}

} // verus!
