//! The ingress queue: a bounded, ordered buffer of candidate blocks between
//! the packet handlers and a chain worker. Order within one producer is
//! preserved (first in, first out); when full, the push either reports
//! back-pressure to the caller or drops the block and counts it, as
//! configured.

use vstd::prelude::*;
use crate::block::{blk_eq, Block};

verus! {

/// What became of a pushed block.
#[derive(Clone, Copy, PartialEq, Eq, Structural, Debug)]
pub enum PushOutcome {
    Enqueued,
    Full,
    Dropped,
}

/// A bounded FIFO of candidate blocks.
pub struct IngressQueue {
    pub items: Vec<Block>,
    pub cap: usize,
    pub drop_on_full: bool,
    pub dropped: u64,
}

impl View for IngressQueue {
    type V = Seq<Block>;

    open spec fn view(&self) -> Seq<Block> {
        self.items@
    }
}

impl IngressQueue {
    /// Well-formedness: never over capacity.
    pub open spec fn wf(&self) -> bool {
        self.items@.len() <= self.cap && self.cap >= 1
    }

    /// An empty queue with the given capacity and back-pressure policy.
    pub fn new(cap: usize, drop_on_full: bool) -> (r: IngressQueue)
        requires
            cap >= 1,
        ensures
            r.wf(),
            r@.len() == 0,
            r.cap == cap,
            r.drop_on_full == drop_on_full,
            r.dropped == 0,
    {
        IngressQueue { items: Vec::new(), cap, drop_on_full, dropped: 0 }
    }

    /// Enqueues a block at the back. When full, either asks the producer to
    /// wait (`Full`) or drops the block and counts it (`Dropped`).
    pub fn push(&mut self, b: Block) -> (r: PushOutcome)
        requires
            old(self).wf(),
        ensures
            final(self).wf(),
            final(self).cap == old(self).cap,
            final(self).drop_on_full == old(self).drop_on_full,
            old(self)@.len() < old(self).cap ==> (
                r == PushOutcome::Enqueued && final(self)@ == old(self)@.push(b)
                    && final(self).dropped == old(self).dropped
            ),
            old(self)@.len() >= old(self).cap && old(self).drop_on_full ==> (
                r == PushOutcome::Dropped && final(self)@ == old(self)@
                    && final(self).dropped == (if old(self).dropped < u64::MAX {
                        (old(self).dropped + 1) as u64
                    } else {
                        old(self).dropped
                    })
            ),
            old(self)@.len() >= old(self).cap && !old(self).drop_on_full ==> (
                r == PushOutcome::Full && *final(self) == *old(self)
            ),
    {
        if self.items.len() < self.cap {
            self.items.push(b);
            PushOutcome::Enqueued
        } else if self.drop_on_full {
            if self.dropped < u64::MAX {
                self.dropped = self.dropped + 1;
            }
            PushOutcome::Dropped
        } else {
            PushOutcome::Full
        }
    }

    /// Dequeues the oldest block, if any: first in, first out.
    pub fn pop(&mut self) -> (r: Option<Block>)
        requires
            old(self).wf(),
        ensures
            final(self).wf(),
            final(self).cap == old(self).cap,
            final(self).drop_on_full == old(self).drop_on_full,
            final(self).dropped == old(self).dropped,
            match r {
                Option::Some(b) => old(self)@.len() > 0 && b == old(self)@[0]
                    && final(self)@ == old(self)@.drop_first(),
                Option::None => old(self)@.len() == 0 && final(self)@ == old(self)@,
            },
    {
        if self.items.len() == 0 {
            Option::None
        } else {
            let b = self.items.remove(0);
            proof {
                assert(self.items@ =~= old(self)@.drop_first());
            }
            Option::Some(b)
        }
    }

    /// How many blocks wait.
    pub fn len(&self) -> (r: usize)
        ensures
            r == self@.len(),
    {
        self.items.len()
    }
}

} // verus!
