//! Grow-only counter: each node increments its own slot; the count is the
//! sum of the slots and merging takes the point-wise maximum.

use vstd::prelude::*;
use crate::sync::node::NodeId;
use crate::sync::counts::{
    NodeCounts, count_at, counts_sum, lemma_counts_sum_insert, lemma_counts_sum_monotone, lemma_values_sum_is_counts_sum,
    pointwise_max, values_sum,
};

verus! {

/// Grow-only counter.
pub struct GCounter {
    counts: NodeCounts,
}

impl View for GCounter {
    type V = Map<Seq<char>, u64>;

    closed spec fn view(&self) -> Map<Seq<char>, u64> {
        self.counts@
    }
}

impl GCounter {
    pub closed spec fn wf(&self) -> bool {
        self.counts.wf()
    }

    /// The slots in order of node name.
    pub closed spec fn ordered(&self) -> Seq<(Seq<char>, u64)> {
        self.counts.ordered()
    }

    /// Sum of all slots.
    pub closed spec fn total(&self) -> int {
        values_sum(self.counts.ordered())
    }

    pub fn new() -> (r: GCounter)
        ensures
            r.wf(),
            r@ == Map::<Seq<char>, u64>::empty(),
            r.total() == 0,
    {
        let r = GCounter { counts: NodeCounts::new() };
        proof {
            r.counts.lemma_ordered();
        }
        r
    }

    /// Adds one to the slot of `node_id`.
    pub fn increment(&mut self, node_id: &NodeId)
        requires
            old(self).wf(),
            count_at(old(self)@, node_id.name()) < u64::MAX,
        ensures
            final(self).wf(),
            final(self)@ == old(self)@.insert(node_id.name(), (count_at(old(self)@, node_id.name()) + 1) as u64),
            final(self).total() == old(self).total() + 1,
    {
        proof {
            self.lemma_total_is_sum();
        }
        let c = self.counts.get(node_id) + 1;
        self.counts.set(node_id, c);
        proof {
            lemma_counts_sum_insert(old(self)@, node_id.name(), c);
            self.lemma_total_is_sum();
        }
    }

    /// Adds `amount` to the slot of `node_id`.
    pub fn increment_by(&mut self, node_id: &NodeId, amount: u64)
        requires
            old(self).wf(),
            count_at(old(self)@, node_id.name()) + amount <= u64::MAX,
        ensures
            final(self).wf(),
            final(self)@ == old(self)@.insert(node_id.name(), (count_at(old(self)@, node_id.name()) + amount) as u64),
            final(self).total() == old(self).total() + amount,
    {
        proof {
            self.lemma_total_is_sum();
        }
        let c = self.counts.get(node_id) + amount;
        self.counts.set(node_id, c);
        proof {
            lemma_counts_sum_insert(old(self)@, node_id.name(), c);
            self.lemma_total_is_sum();
        }
    }

    /// Total count across all nodes.
    pub fn value(&self) -> (r: u64)
        requires
            self.wf(),
            self.total() <= u64::MAX,
        ensures
            r == self.total(),
    {
        self.counts.total()
    }

    /// The slot of `node_id`, 0 when it has none.
    pub fn node_value(&self, node_id: &NodeId) -> (r: u64)
        requires
            self.wf(),
        ensures
            r == count_at(self@, node_id.name()),
    {
        self.counts.get(node_id)
    }

    /// Merges with another counter (point-wise maximum).
    pub fn merge(&mut self, other: &GCounter)
        requires
            old(self).wf(),
            other.wf(),
        ensures
            final(self).wf(),
            final(self)@ == pointwise_max(old(self)@, other@),
            final(self).total() == counts_sum(pointwise_max(old(self)@, other@)),
            final(self).total() >= old(self).total(),
            final(self).total() >= other.total(),
    {
        proof {
            self.lemma_total_is_sum();
            other.lemma_total_is_sum();
        }
        self.counts.merge_max(&other.counts);
        proof {
            self.lemma_total_is_sum();
            let m = pointwise_max(old(self)@, other@);
            assert(m.dom().finite());
            lemma_counts_sum_monotone(old(self)@, m);
            lemma_counts_sum_monotone(other@, m);
        }
    }

    /// The slots in order of node name.
    pub fn slots(&self) -> (r: Vec<(NodeId, u64)>)
        requires
            self.wf(),
        ensures
            crate::sync::counts::abstract_entries(r@) == self.ordered(),
    {
        self.counts.to_vec()
    }

    /// The total is the sum of the slots of the view.
    pub proof fn lemma_total_is_sum(&self)
        requires
            self.wf(),
        ensures
            self@.dom().finite(),
            self.total() == counts_sum(self@),
    {
        self.counts.lemma_sum_of_view();
    }

    /// Two counters with the same slots have the same total.
    pub proof fn lemma_total_of_view(a: &GCounter, b: &GCounter)
        requires
            a.wf(),
            b.wf(),
            a@ == b@,
        ensures
            a.total() == b.total(),
    {
        a.counts.lemma_view_determines(&b.counts);
    }
}

} // verus!
