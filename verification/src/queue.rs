//! The ordered hand-off buffer between the input ingester and the
//! dispatcher.

use vstd::prelude::*;
use crate::frame::FrameData;

verus! {

/// An ordered sequence of frames: insertion order is send order. The
/// ingester is the sole producer, the dispatcher the sole consumer, and
/// the two share the value under one lock owned by the caller; each
/// operation below is the whole critical section it needs. A drain is
/// atomic: it removes and returns the entire current contents as one
/// batch, so an append lands either wholly before a drain (and is in its
/// result) or wholly after it (and is in the next drain's result). No
/// capacity bound is enforced; back-pressure is intentionally absent.
pub struct SharedOutboundQueue {
    items: Vec<FrameData>,
}

impl View for SharedOutboundQueue {
    type V = Seq<FrameData>;

    closed spec fn view(&self) -> Seq<FrameData> {
        self.items@
    }
}

impl SharedOutboundQueue {
    pub fn new() -> (q: SharedOutboundQueue)
        ensures
            q@ == Seq::<FrameData>::empty(),
    {
        SharedOutboundQueue { items: Vec::new() }
    }

    /// Producer side: add one frame at the tail.
    pub fn append(&mut self, f: FrameData)
        ensures
            final(self)@ == old(self)@.push(f),
    {
        self.items.push(f);
    }

    pub fn len(&self) -> (n: usize)
        ensures
            n == self@.len(),
    {
        self.items.len()
    }

    /// Consumer side: remove and return the entire current contents, in
    /// insertion order, leaving the queue empty.
    pub fn drain(&mut self) -> (batch: Vec<FrameData>)
        ensures
            batch@ == old(self)@,
            final(self)@ == Seq::<FrameData>::empty(),
    {
        let mut batch: Vec<FrameData> = Vec::new();
        core::mem::swap(&mut batch, &mut self.items);
        batch
    }
}

/// The queue contents after appending the frames of `xs`, one at a time
/// and in order, to a queue holding `q` — the shape `append` gives them.
pub open spec fn queue_after_appends(q: Seq<FrameData>, xs: Seq<FrameData>) -> Seq<FrameData>
    decreases xs.len(),
{
    if xs.len() == 0 {
        q
    } else {
        queue_after_appends(q.push(xs[0]), xs.skip(1))
    }
}

proof fn lemma_appends_concat(q: Seq<FrameData>, xs: Seq<FrameData>)
    ensures
        queue_after_appends(q, xs) == q + xs,
    decreases xs.len(),
{
    if xs.len() == 0 {
        assert(q + xs =~= q);
    } else {
        lemma_appends_concat(q.push(xs[0]), xs.skip(1));
        assert(q.push(xs[0]) + xs.skip(1) =~= q + xs);
    }
}

/// Queue ordering law: any frames appended, in order, to an empty queue
/// stand in the queue in exactly append order, so the next drain returns
/// them in that order and (by `drain`'s contract) leaves the queue empty.
pub proof fn lemma_queue_ordering(xs: Seq<FrameData>)
    ensures
        queue_after_appends(Seq::<FrameData>::empty(), xs) == xs,
{
    lemma_appends_concat(Seq::<FrameData>::empty(), xs);
    assert(Seq::<FrameData>::empty() + xs =~= xs);
}

/// Drain atomicity law: a drain of a queue holding `before` returns
/// exactly `before` and leaves the queue empty, so frames appended after
/// it — `after`, in order — are exactly the contents the next drain
/// returns: absent from the first drain's result, present exactly once
/// in the next one, in order, with no loss and no duplication.
pub proof fn lemma_drain_atomicity(before: Seq<FrameData>, after: Seq<FrameData>)
    ensures
        queue_after_appends(Seq::<FrameData>::empty(), after) == after,
        queue_after_appends(before, after) == before + after,
{
    lemma_queue_ordering(after);
    lemma_appends_concat(before, after);
}

} // verus!
