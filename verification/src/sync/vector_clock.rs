//! Vector clocks: causal order between nodes.

use vstd::prelude::*;
use crate::sync::node::NodeId;
use crate::sync::counts::{NodeCounts, count_at, pointwise_max};

verus! {

/// `a` is causally before or equal to `b`: no node counter of `a` exceeds
/// that of `b` (a missing counter counts as 0).
pub open spec fn clock_le(a: Map<Seq<char>, u64>, b: Map<Seq<char>, u64>) -> bool {
    forall|k: Seq<char>| #[trigger] a.contains_key(k) ==> a[k] <= count_at(b, k)
}

/// `a` is strictly causally before `b`.
pub open spec fn clock_lt(a: Map<Seq<char>, u64>, b: Map<Seq<char>, u64>) -> bool {
    clock_le(a, b) && a != b
}

/// Neither clock is causally before the other.
pub open spec fn clock_concurrent(a: Map<Seq<char>, u64>, b: Map<Seq<char>, u64>) -> bool {
    !clock_le(a, b) && !clock_le(b, a)
}

/// Vector clock: a logical counter per node.
#[derive(Clone, Debug)]
pub struct VectorClock {
    entries: NodeCounts,
}

impl View for VectorClock {
    type V = Map<Seq<char>, u64>;

    closed spec fn view(&self) -> Map<Seq<char>, u64> {
        self.entries@
    }
}

impl VectorClock {
    pub closed spec fn wf(&self) -> bool {
        self.entries.wf()
    }

    /// The counters in order of node name.
    pub closed spec fn ordered(&self) -> Seq<(Seq<char>, u64)> {
        self.entries.ordered()
    }

    pub fn new() -> (r: VectorClock)
        ensures
            r.wf(),
            r@ == Map::<Seq<char>, u64>::empty(),
    {
        VectorClock { entries: NodeCounts::new() }
    }

    /// Increments the counter of `node_id` and returns its new value.
    pub fn increment(&mut self, node_id: &NodeId) -> (r: u64)
        requires
            old(self).wf(),
            count_at(old(self)@, node_id.name()) < u64::MAX,
        ensures
            final(self).wf(),
            r == count_at(old(self)@, node_id.name()) + 1,
            final(self)@ == old(self)@.insert(node_id.name(), r),
    {
        let c = self.entries.get(node_id) + 1;
        self.entries.set(node_id, c);
        c
    }

    /// The counter of `node_id`, 0 when the node is unseen.
    pub fn get(&self, node_id: &NodeId) -> (r: u64)
        requires
            self.wf(),
        ensures
            r == count_at(self@, node_id.name()),
    {
        self.entries.get(node_id)
    }

    /// Merges with another vector clock (point-wise maximum).
    pub fn merge(&mut self, other: &VectorClock)
        requires
            old(self).wf(),
            other.wf(),
        ensures
            final(self).wf(),
            final(self)@ == pointwise_max(old(self)@, other@),
    {
        self.entries.merge_max(&other.entries);
    }

    /// `true` when this clock is causally before or equal to `other`.
    pub fn is_before_or_equal(&self, other: &VectorClock) -> (r: bool)
        requires
            self.wf(),
            other.wf(),
        ensures
            r == clock_le(self@, other@),
    {
        self.entries.all_le(&other.entries)
    }

    /// `true` when both clocks hold the same counters.
    pub fn equals(&self, other: &VectorClock) -> (r: bool)
        requires
            self.wf(),
            other.wf(),
        ensures
            r == (self@ == other@),
    {
        self.entries.same_counts(&other.entries)
    }

    /// `true` when this clock is strictly causally before `other`.
    pub fn is_strictly_before(&self, other: &VectorClock) -> (r: bool)
        requires
            self.wf(),
            other.wf(),
        ensures
            r == clock_lt(self@, other@),
    {
        self.is_before_or_equal(other) && !self.equals(other)
    }

    /// `true` when neither clock is before the other.
    pub fn is_concurrent_with(&self, other: &VectorClock) -> (r: bool)
        requires
            self.wf(),
            other.wf(),
        ensures
            r == clock_concurrent(self@, other@),
    {
        !self.is_before_or_equal(other) && !other.is_before_or_equal(self)
    }

    /// Number of nodes tracked.
    pub fn node_count(&self) -> (r: usize)
        requires
            self.wf(),
        ensures
            r == self@.dom().len(),
    {
        self.entries.len()
    }

    /// The counters in order of node name.
    pub fn entries(&self) -> (r: Vec<(NodeId, u64)>)
        ensures
            crate::sync::counts::abstract_entries(r@) == self.ordered(),
    {
        self.entries.to_vec()
    }
}

} // verus!
