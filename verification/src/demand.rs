//! Pending demand arrivals at one source.
//!
//! Every arrival a source generates is either queued, in arrival order, or
//! shed and counted when the queue is full. Admission takes arrivals from the
//! front only, stopping at the first blocked one, so a queue stays ordered and
//! never lets a later arrival jump ahead of an earlier one.

use std::collections::VecDeque;

use vstd::prelude::*;

verus! {

/// The pending arrivals of one demand source and the arrivals it shed.
#[derive(Debug)]
pub struct DemandQueue<T> {
    pending: VecDeque<T>,
    capacity: usize,
    dropped: u64,
}

impl<T: Copy> DemandQueue<T> {
    /// The queued arrivals, oldest first.
    pub closed spec fn queued(&self) -> Seq<T> {
        self.pending@
    }

    /// The most arrivals the queue holds.
    pub closed spec fn limit(&self) -> usize {
        self.capacity
    }

    /// The arrivals shed because the queue was full.
    pub closed spec fn shed(&self) -> u64 {
        self.dropped
    }

    /// The queue never holds more arrivals than its capacity.
    pub closed spec fn wf(&self) -> bool {
        self.pending@.len() <= self.capacity
    }

    /// An empty queue holding at most `capacity` arrivals.
    pub fn new(capacity: usize) -> (r: DemandQueue<T>)
        ensures
            r.wf(),
            r.queued() == Seq::<T>::empty(),
            r.limit() == capacity,
            r.shed() == 0,
    {
        DemandQueue { pending: VecDeque::new(), capacity, dropped: 0 }
    }

    /// Record one arrival: queue it behind every earlier one while the queue
    /// has room, otherwise shed it and count it. Returns whether it was
    /// queued.
    pub fn arrive(&mut self, item: T) -> (queued: bool)
        requires
            old(self).wf(),
            old(self).shed() < u64::MAX,
        ensures
            final(self).wf(),
            final(self).limit() == old(self).limit(),
            queued == (old(self).queued().len() < old(self).limit()),
            queued ==> final(self).queued() == old(self).queued().push(item) && final(self).shed() == old(self).shed(),
            !queued ==> final(self).queued() == old(self).queued() && final(self).shed() == old(self).shed() + 1,
            final(self).queued().len() + final(self).shed() == old(self).queued().len() + old(self).shed() + 1,
    {
        if self.pending.len() < self.capacity {
            self.pending.push_back(item);
            true
        } else {
            self.dropped = self.dropped + 1;
            false
        }
    }

    /// The oldest queued arrival, if any.
    pub fn front(&self) -> (r: Option<T>)
        ensures
            r == (if self.queued().len() > 0 { Some(self.queued()[0]) } else { None }),
    {
        if self.pending.len() > 0 {
            Some(self.pending[0])
        } else {
            None
        }
    }

    /// Remove the oldest queued arrival once it has been admitted.
    pub fn admit_front(&mut self) -> (r: T)
        requires
            old(self).wf(),
            old(self).queued().len() > 0,
        ensures
            final(self).wf(),
            r == old(self).queued()[0],
            final(self).queued() == old(self).queued().drop_first(),
            final(self).shed() == old(self).shed(),
            final(self).limit() == old(self).limit(),
    {
        self.pending.pop_front().unwrap()
    }

    /// Arrivals waiting for admission.
    pub fn pending_len(&self) -> (r: usize)
        ensures
            r == self.queued().len(),
    {
        self.pending.len()
    }

    /// Arrivals shed because the queue was full.
    pub fn dropped(&self) -> (r: u64)
        ensures
            r == self.shed(),
    {
        self.dropped
    }
}

/// Arrivals leave a queue in the order they arrived: after an arrival is
/// queued behind a non-empty queue, the next admission still takes the
/// oldest arrival, and the new one stays last.
pub proof fn law_admission_is_first_in_first_out<T>(queued: Seq<T>, item: T)
    requires
        queued.len() > 0,
    ensures
        queued.push(item)[0] == queued[0],
        queued.push(item).drop_first() == queued.drop_first().push(item),
{
    assert(queued.push(item).drop_first() =~= queued.drop_first().push(item));
}

} // verus!
