//! The trace: the ordered log of hollow batches plus its own `since`
//! frontier. The spine's physical organization is immaterial here; what
//! matters is the order of batches and the invariant that the trace's
//! `since` never exceeds any contained batch's `since`.

use vstd::prelude::*;
use crate::antichain::{ac_le, Antichain};
use crate::codec::Timestamp;
use crate::state::{HollowBatch, HollowBatchView};

verus! {

#[derive(Debug, PartialEq, Eq)]
pub struct Trace<T> {
    since: Antichain<T>,
    spine: Vec<HollowBatch<T>>,
}

/// The views of a sequence of hollow batches.
pub open spec fn spine_view<T>(s: Seq<HollowBatch<T>>) -> Seq<HollowBatchView<T>> {
    Seq::new(s.len(), |i: int| s[i]@)
}

pub struct TraceView<T> {
    pub since: Seq<T>,
    pub spine: Seq<HollowBatchView<T>>,
}

impl<T> View for Trace<T> {
    type V = TraceView<T>;

    closed spec fn view(&self) -> TraceView<T> {
        TraceView { since: self.since@, spine: spine_view(self.spine@) }
    }
}

impl<T: Timestamp> Trace<T> {
    /// Structural well-formedness: every antichain in the trace is one of a
    /// total order.
    pub open spec fn wf(self) -> bool {
        &&& self@.since.len() <= 1
        &&& forall|i: int|
            0 <= i < self@.spine.len() ==> {
                &&& (#[trigger] self@.spine[i]).desc.lower.len() <= 1
                &&& self@.spine[i].desc.upper.len() <= 1
                &&& self@.spine[i].desc.since.len() <= 1
            }
    }

    /// The monotonicity invariant: the trace's `since` does not exceed any
    /// batch's `since`.
    pub open spec fn since_monotone(self) -> bool {
        forall|i: int|
            0 <= i < self@.spine.len() ==> ac_le(self@.since, (#[trigger] self@.spine[i]).desc.since)
    }

    pub fn since(&self) -> (r: &Antichain<T>)
        ensures
            r@ == self@.since,
    {
        &self.since
    }

    /// Borrows the batches in order; batch `i` views to `self@.spine[i]`.
    pub fn batches(&self) -> (r: &Vec<HollowBatch<T>>)
        ensures
            r@.len() == self@.spine.len(),
            forall|i: int| 0 <= i < r@.len() ==> (#[trigger] r@[i])@ == self@.spine[i],
    {
        &self.spine
    }

    /// Replaces the `since` frontier. Rehydration downgrades an empty trace
    /// before pushing any batch, so monotonicity is trivially kept there.
    pub fn downgrade_since(&mut self, since: &Antichain<T>)
        ensures
            final(self)@.since == since@,
            final(self)@.spine == old(self)@.spine,
    {
        self.since = since.clone();
    }

    /// Removes the batch at `i`.
    pub fn remove_batch_at(&mut self, i: usize)
        requires
            i < old(self)@.spine.len(),
        ensures
            final(self)@.since == old(self)@.since,
            final(self)@.spine == old(self)@.spine.remove(i as int),
    {
        self.spine.remove(i);
        proof {
            assert(spine_view(self.spine@) =~= spine_view(old(self).spine@).remove(i as int));
        }
    }

    /// Pushes a batch. Merge planning is a separate concern of whichever
    /// process is assigned the compaction work; nothing is requested here.
    pub fn push_batch(&mut self, batch: HollowBatch<T>)
        ensures
            final(self)@.since == old(self)@.since,
            final(self)@.spine == old(self)@.spine.push(batch@),
    {
        let ghost bview = batch@;
        self.spine.push(batch);
        proof {
            assert(spine_view(self.spine@) =~= spine_view(old(self).spine@).push(bview));
        }
    }
}

impl<T: Timestamp> Default for Trace<T> {
    /// The empty trace: no batches, `since` at the minimum timestamp.
    fn default() -> (r: Self)
        ensures
            r@.since == seq![T::minimum_spec()],
            r@.spine == Seq::<HollowBatchView<T>>::empty(),
            r.wf(),
            r.since_monotone(),
    {
        let r = Trace { since: Antichain::from_elem(T::minimum()), spine: Vec::new() };
        proof {
            assert(r@.spine =~= Seq::<HollowBatchView<T>>::empty());
        }
        r
    }
}

impl<T: Timestamp> Clone for Trace<T> {
    fn clone(&self) -> (r: Self)
        ensures
            r@.since == self@.since,
            r@.spine == self@.spine,
    {
        let mut spine: Vec<HollowBatch<T>> = Vec::new();
        let mut i: usize = 0;
        while i < self.spine.len()
            invariant
                i <= self.spine@.len(),
                spine@.len() == i,
                forall|j: int| 0 <= j < i ==> (#[trigger] spine@[j])@ == self.spine@[j]@,
            decreases self.spine@.len() - i,
        {
            spine.push(self.spine[i].clone());
            i = i + 1;
        }
        proof {
            assert(spine_view(spine@) =~= spine_view(self.spine@));
        }
        Trace { since: self.since.clone(), spine }
    }
}

} // verus!
