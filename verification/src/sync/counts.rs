//! A map from node names to counters, kept as a vector sorted by node name
//! (the order of a `BTreeMap<NodeId, u64>`). Vector clocks and grow-only
//! counters are built on it.

use vstd::prelude::*;
use crate::sync::node::{NodeId, name_lt, lemma_name_order};

verus! {

/// Keys of the entries are strictly increasing.
pub open spec fn strictly_sorted(s: Seq<(NodeId, u64)>) -> bool {
    forall|i: int, j: int| 0 <= i < j < s.len() ==> name_lt(#[trigger] s[i].0.name(), #[trigger] s[j].0.name())
}

/// Some entry has key `k`.
pub open spec fn has_key(s: Seq<(NodeId, u64)>, k: Seq<char>) -> bool {
    exists|i: int| 0 <= i < s.len() && #[trigger] s[i].0.name() == k
}

/// An index of an entry with key `k`.
pub open spec fn key_index(s: Seq<(NodeId, u64)>, k: Seq<char>) -> int {
    choose|i: int| 0 <= i < s.len() && #[trigger] s[i].0.name() == k
}

/// The map that the entries describe.
pub open spec fn entries_map(s: Seq<(NodeId, u64)>) -> Map<Seq<char>, u64> {
    Map::new(|k: Seq<char>| has_key(s, k), |k: Seq<char>| s[key_index(s, k)].1)
}

/// The value at `k`, 0 where there is none.
pub open spec fn count_at(m: Map<Seq<char>, u64>, k: Seq<char>) -> u64 {
    if m.contains_key(k) {
        m[k]
    } else {
        0
    }
}

/// Point-wise maximum of two maps over the union of their keys.
pub open spec fn pointwise_max(a: Map<Seq<char>, u64>, b: Map<Seq<char>, u64>) -> Map<Seq<char>, u64> {
    Map::new(
        |k: Seq<char>| a.contains_key(k) || b.contains_key(k),
        |k: Seq<char>| if count_at(a, k) >= count_at(b, k) { count_at(a, k) } else { count_at(b, k) },
    )
}

/// The entries as pairs of node name and counter.
pub open spec fn abstract_entries(s: Seq<(NodeId, u64)>) -> Seq<(Seq<char>, u64)> {
    s.map_values(|e: (NodeId, u64)| (e.0.name(), e.1))
}

/// Sum of the values of the entries, in order.
pub open spec fn values_sum(s: Seq<(Seq<char>, u64)>) -> int
    decreases s.len(),
{
    if s.len() == 0 {
        0
    } else {
        values_sum(s.drop_last()) + s.last().1
    }
}

pub proof fn lemma_lookup(s: Seq<(NodeId, u64)>, i: int)
    requires
        strictly_sorted(s),
        0 <= i < s.len(),
    ensures
        entries_map(s).contains_key(s[i].0.name()),
        entries_map(s)[s[i].0.name()] == s[i].1,
        key_index(s, s[i].0.name()) == i,
{
    let k = s[i].0.name();
    assert(has_key(s, k));
    let j = key_index(s, k);
    lemma_name_order(k, k, k);
    if j < i {
        assert(name_lt(s[j].0.name(), s[i].0.name()));
    } else if j > i {
        assert(name_lt(s[i].0.name(), s[j].0.name()));
    }
}

pub proof fn lemma_sorted_subrange(s: Seq<(NodeId, u64)>, lo: int, hi: int)
    requires
        strictly_sorted(s),
        0 <= lo <= hi <= s.len(),
    ensures
        strictly_sorted(s.subrange(lo, hi)),
{
    let t = s.subrange(lo, hi);
    assert forall|i: int, j: int| 0 <= i < j < t.len() implies name_lt(#[trigger] t[i].0.name(), #[trigger] t[j].0.name()) by {
        assert(t[i] == s[lo + i]);
        assert(t[j] == s[lo + j]);
    }
}

/// The map of a prefix grows by one entry at a time.
pub proof fn lemma_map_take_step(s: Seq<(NodeId, u64)>, i: int)
    requires
        strictly_sorted(s),
        0 <= i < s.len(),
    ensures
        entries_map(s.take(i + 1)) == entries_map(s.take(i)).insert(s[i].0.name(), s[i].1),
{
    let a = s.take(i + 1);
    let b = s.take(i);
    lemma_sorted_subrange(s, 0, i + 1);
    lemma_sorted_subrange(s, 0, i);
    assert(a[i] == s[i]);
    lemma_lookup(a, i);
    let m = entries_map(b).insert(s[i].0.name(), s[i].1);
    assert forall|k: Seq<char>| #[trigger] entries_map(a).contains_key(k) == m.contains_key(k) by {
        if has_key(a, k) && k != s[i].0.name() {
            let j = key_index(a, k);
            assert(j != i);
            assert(b[j] == a[j]);
        }
        if has_key(b, k) {
            let j = key_index(b, k);
            assert(a[j] == b[j]);
        }
    }
    assert forall|k: Seq<char>| #[trigger] entries_map(a).contains_key(k) && k != s[i].0.name() implies entries_map(a)[k] == entries_map(b)[k] by {
        let j = key_index(a, k);
        assert(j != i);
        assert(a[j] == b[j]);
        lemma_lookup(a, j);
        lemma_lookup(b, j);
    }
    assert(entries_map(a) =~= m);
}

/// The map of the whole sequence is that of its full prefix.
pub proof fn lemma_take_all(s: Seq<(NodeId, u64)>)
    ensures
        s.take(s.len() as int) == s,
        s.take(0) == Seq::<(NodeId, u64)>::empty(),
        entries_map(Seq::<(NodeId, u64)>::empty()) == Map::<Seq<char>, u64>::empty(),
{
    assert(s.take(s.len() as int) =~= s);
    assert(s.take(0) =~= Seq::<(NodeId, u64)>::empty());
    assert(entries_map(Seq::<(NodeId, u64)>::empty()) =~= Map::<Seq<char>, u64>::empty());
}

/// Removing the first (smallest) entry removes its key from the map.
pub proof fn lemma_map_drop_first(s: Seq<(NodeId, u64)>)
    requires
        strictly_sorted(s),
        s.len() > 0,
    ensures
        strictly_sorted(s.drop_first()),
        entries_map(s.drop_first()) == entries_map(s).remove(s[0].0.name()),
        !entries_map(s.drop_first()).contains_key(s[0].0.name()),
{
    let t = s.drop_first();
    lemma_sorted_subrange(s, 1, s.len() as int);
    assert(t =~= s.subrange(1, s.len() as int));
    let k0 = s[0].0.name();
    lemma_name_order(k0, k0, k0);
    assert forall|k: Seq<char>| #[trigger] entries_map(t).contains_key(k) == entries_map(s).remove(k0).contains_key(k) by {
        if has_key(t, k) {
            let j = key_index(t, k);
            assert(t[j] == s[j + 1]);
            assert(name_lt(s[0].0.name(), s[j + 1].0.name()));
        }
        if has_key(s, k) && k != k0 {
            let j = key_index(s, k);
            assert(j != 0);
            assert(t[j - 1] == s[j]);
        }
    }
    assert forall|k: Seq<char>| #[trigger] entries_map(t).contains_key(k) implies entries_map(t)[k] == entries_map(s)[k] by {
        let j = key_index(t, k);
        assert(t[j] == s[j + 1]);
        lemma_lookup(t, j);
        lemma_lookup(s, j + 1);
    }
    assert(entries_map(t) =~= entries_map(s).remove(k0));
}

/// Strictly sorted entries are determined by the map they describe.
pub proof fn lemma_canonical(s1: Seq<(NodeId, u64)>, s2: Seq<(NodeId, u64)>)
    requires
        strictly_sorted(s1),
        strictly_sorted(s2),
        entries_map(s1) == entries_map(s2),
    ensures
        abstract_entries(s1) == abstract_entries(s2),
    decreases s1.len(),
{
    if s1.len() == 0 {
        if s2.len() > 0 {
            lemma_lookup(s2, 0);
        }
        assert(abstract_entries(s1) =~= abstract_entries(s2));
    } else if s2.len() == 0 {
        lemma_lookup(s1, 0);
    } else {
        let k1 = s1[0].0.name();
        let k2 = s2[0].0.name();
        lemma_lookup(s1, 0);
        lemma_lookup(s2, 0);
        let j2 = key_index(s2, k1);
        let j1 = key_index(s1, k2);
        lemma_lookup(s2, j2);
        lemma_lookup(s1, j1);
        lemma_name_order(k1, k2, k1);
        if j2 > 0 {
            assert(name_lt(s2[0].0.name(), s2[j2].0.name()));
        }
        if j1 > 0 {
            assert(name_lt(s1[0].0.name(), s1[j1].0.name()));
        }
        assert(k1 == k2);
        assert(s1[0].1 == s2[0].1);
        lemma_map_drop_first(s1);
        lemma_map_drop_first(s2);
        lemma_canonical(s1.drop_first(), s2.drop_first());
        let a1 = abstract_entries(s1);
        let a2 = abstract_entries(s2);
        assert(abstract_entries(s1.drop_first()) =~= a1.drop_first());
        assert(abstract_entries(s2.drop_first()) =~= a2.drop_first());
        assert(a1 =~= seq![a1[0]] + a1.drop_first());
        assert(a2 =~= seq![a2[0]] + a2.drop_first());
    }
}

/// The map has as many keys as there are entries.
pub proof fn lemma_map_len(s: Seq<(NodeId, u64)>)
    requires
        strictly_sorted(s),
    ensures
        entries_map(s).dom().finite(),
        entries_map(s).dom().len() == s.len(),
    decreases s.len(),
{
    if s.len() == 0 {
        lemma_take_all(s);
        assert(s =~= Seq::<(NodeId, u64)>::empty());
    } else {
        lemma_map_drop_first(s);
        lemma_map_len(s.drop_first());
        lemma_lookup(s, 0);
        assert(entries_map(s).dom() =~= entries_map(s.drop_first()).dom().insert(s[0].0.name()));
    }
}

/// Sum of the counters of a finite map.
pub open spec fn counts_sum(m: Map<Seq<char>, u64>) -> int
    decreases m.dom().len(),
    when m.dom().finite()
{
    if m.dom().len() == 0 {
        0
    } else {
        let k = m.dom().choose();
        m[k] + counts_sum(m.remove(k))
    }
}

/// The sum of a finite map is any of its counters plus the sum of the rest.
pub proof fn lemma_counts_sum_remove(m: Map<Seq<char>, u64>, k: Seq<char>)
    requires
        m.dom().finite(),
        m.contains_key(k),
    ensures
        counts_sum(m) == m[k] + counts_sum(m.remove(k)),
    decreases m.dom().len(),
{
    let c = m.dom().choose();
    assert(m.dom().contains(c));
    if c != k {
        let mc = m.remove(c);
        let mk = m.remove(k);
        assert(mc.dom() =~= m.dom().remove(c));
        assert(mk.dom() =~= m.dom().remove(k));
        lemma_counts_sum_remove(mc, k);
        lemma_counts_sum_remove(mk, c);
        assert(mc.remove(k) =~= mk.remove(c));
    }
}

/// Counters are never negative, so neither is their sum.
pub proof fn lemma_counts_sum_nonneg(m: Map<Seq<char>, u64>)
    requires
        m.dom().finite(),
    ensures
        counts_sum(m) >= 0,
    decreases m.dom().len(),
{
    if m.dom().len() > 0 {
        let k = m.dom().choose();
        assert(m.dom().contains(k));
        assert(m.remove(k).dom() =~= m.dom().remove(k));
        lemma_counts_sum_nonneg(m.remove(k));
    }
}

/// Setting a counter changes the sum by the difference.
pub proof fn lemma_counts_sum_insert(m: Map<Seq<char>, u64>, k: Seq<char>, v: u64)
    requires
        m.dom().finite(),
    ensures
        m.insert(k, v).dom().finite(),
        counts_sum(m.insert(k, v)) == counts_sum(m) - count_at(m, k) + v,
{
    let n = m.insert(k, v);
    assert(n.dom() =~= m.dom().insert(k));
    lemma_counts_sum_remove(n, k);
    if m.contains_key(k) {
        lemma_counts_sum_remove(m, k);
        assert(n.remove(k) =~= m.remove(k));
    } else {
        assert(n.remove(k) =~= m);
    }
}

/// A map whose counters are at least those of `a`, on at least its keys,
/// has at least its sum.
pub proof fn lemma_counts_sum_monotone(a: Map<Seq<char>, u64>, b: Map<Seq<char>, u64>)
    requires
        a.dom().finite(),
        b.dom().finite(),
        forall|k: Seq<char>| #[trigger] a.contains_key(k) ==> b.contains_key(k) && a[k] <= b[k],
    ensures
        counts_sum(a) <= counts_sum(b),
    decreases a.dom().len(),
{
    if a.dom().len() == 0 {
        lemma_counts_sum_nonneg(b);
    } else {
        let k = a.dom().choose();
        assert(a.dom().contains(k));
        lemma_counts_sum_remove(a, k);
        lemma_counts_sum_remove(b, k);
        assert(a.remove(k).dom() =~= a.dom().remove(k));
        assert(b.remove(k).dom() =~= b.dom().remove(k));
        lemma_counts_sum_monotone(a.remove(k), b.remove(k));
    }
}

/// The sum of strictly sorted entries, in order, is the sum of the map they
/// describe.
pub proof fn lemma_values_sum_is_counts_sum(s: Seq<(NodeId, u64)>)
    requires
        strictly_sorted(s),
    ensures
        entries_map(s).dom().finite(),
        values_sum(abstract_entries(s)) == counts_sum(entries_map(s)),
{
    lemma_map_len(s);
    lemma_prefix_sum(s, s.len() as int);
    lemma_take_all(s);
}

proof fn lemma_prefix_sum(s: Seq<(NodeId, u64)>, i: int)
    requires
        strictly_sorted(s),
        0 <= i <= s.len(),
    ensures
        entries_map(s.take(i)).dom().finite(),
        values_sum(abstract_entries(s.take(i))) == counts_sum(entries_map(s.take(i))),
    decreases i,
{
    lemma_sorted_subrange(s, 0, i);
    assert(s.take(i) =~= s.subrange(0, i));
    lemma_map_len(s.take(i));
    if i == 0 {
        assert(s.take(0) =~= Seq::<(NodeId, u64)>::empty());
        assert(abstract_entries(s.take(0)) =~= Seq::<(Seq<char>, u64)>::empty());
        assert(entries_map(s.take(0)).dom() =~= Set::<Seq<char>>::empty());
    } else {
        lemma_prefix_sum(s, i - 1);
        lemma_map_take_step(s, i - 1);
        let b = s.take(i - 1);
        let k = s[i - 1].0.name();
        if has_key(b, k) {
            let j = key_index(b, k);
            assert(b[j] == s[j]);
            assert(name_lt(s[j].0.name(), s[i - 1].0.name()));
            lemma_name_order(k, k, k);
        }
        lemma_counts_sum_insert(entries_map(b), k, s[i - 1].1);
        let a = abstract_entries(s.take(i));
        assert(a.drop_last() =~= abstract_entries(b));
        assert(a.last() == (k, s[i - 1].1));
    }
}

/// Counters per node, sorted by node name.
#[derive(Clone, Debug)]
pub struct NodeCounts {
    entries: Vec<(NodeId, u64)>,
}

impl View for NodeCounts {
    type V = Map<Seq<char>, u64>;

    closed spec fn view(&self) -> Map<Seq<char>, u64> {
        entries_map(self.entries@)
    }
}

impl NodeCounts {
    /// The entries are sorted by node name with no name twice.
    pub closed spec fn wf(&self) -> bool {
        strictly_sorted(self.entries@)
    }

    /// The entries in order of node name.
    pub closed spec fn ordered(&self) -> Seq<(Seq<char>, u64)> {
        abstract_entries(self.entries@)
    }

    /// The ordered entries are sorted and describe the map; the map
    /// determines them.
    pub proof fn lemma_ordered(&self)
        requires
            self.wf(),
        ensures
            forall|i: int, j: int| 0 <= i < j < self.ordered().len() ==> name_lt(#[trigger] self.ordered()[i].0, #[trigger] self.ordered()[j].0),
            forall|i: int| 0 <= i < self.ordered().len() ==> self@.contains_key(#[trigger] self.ordered()[i].0) && self@[self.ordered()[i].0] == self.ordered()[i].1,
            forall|k: Seq<char>| #[trigger] self@.contains_key(k) ==> exists|i: int| 0 <= i < self.ordered().len() && self.ordered()[i].0 == k,
            self@.dom().finite(),
            self@.dom().len() == self.ordered().len(),
    {
        lemma_map_len(self.entries@);
        let s = self.entries@;
        assert forall|i: int, j: int| 0 <= i < j < self.ordered().len() implies name_lt(#[trigger] self.ordered()[i].0, #[trigger] self.ordered()[j].0) by {
            assert(name_lt(s[i].0.name(), s[j].0.name()));
        }
        assert forall|i: int| 0 <= i < self.ordered().len() implies self@.contains_key(#[trigger] self.ordered()[i].0) && self@[self.ordered()[i].0] == self.ordered()[i].1 by {
            lemma_lookup(s, i);
        }
        assert forall|k: Seq<char>| #[trigger] self@.contains_key(k) implies exists|i: int| 0 <= i < self.ordered().len() && self.ordered()[i].0 == k by {
            let j = key_index(s, k);
            assert(self.ordered()[j].0 == k);
        }
    }

    /// The sum of the ordered entries is the sum of the view.
    pub proof fn lemma_sum_of_view(&self)
        requires
            self.wf(),
        ensures
            self@.dom().finite(),
            values_sum(self.ordered()) == counts_sum(self@),
    {
        lemma_values_sum_is_counts_sum(self.entries@);
    }

    /// Two well-formed maps with the same view have the same entries.
    pub proof fn lemma_view_determines(&self, other: &NodeCounts)
        requires
            self.wf(),
            other.wf(),
            self@ == other@,
        ensures
            self.ordered() == other.ordered(),
    {
        lemma_canonical(self.entries@, other.entries@);
    }

    pub fn new() -> (r: NodeCounts)
        ensures
            r.wf(),
            r@ == Map::<Seq<char>, u64>::empty(),
    {
        let r = NodeCounts { entries: Vec::new() };
        proof {
            lemma_take_all(r.entries@);
            assert(r.entries@ =~= Seq::<(NodeId, u64)>::empty());
        }
        r
    }

    /// Position of `k`, or the position at which it would be inserted.
    fn search(&self, k: &NodeId) -> (r: (usize, bool))
        requires
            self.wf(),
        ensures
            r.0 <= self.entries@.len(),
            r.1 ==> r.0 < self.entries@.len() && self.entries@[r.0 as int].0.name() == k.name(),
            !r.1 ==> forall|j: int| 0 <= j < r.0 ==> name_lt(#[trigger] self.entries@[j].0.name(), k.name()),
            !r.1 ==> forall|j: int| r.0 <= j < self.entries@.len() ==> name_lt(k.name(), #[trigger] self.entries@[j].0.name()),
    {
        let mut i: usize = 0;
        while i < self.entries.len() && self.entries[i].0.less(k)
            invariant
                i <= self.entries@.len(),
                forall|j: int| 0 <= j < i ==> name_lt(#[trigger] self.entries@[j].0.name(), k.name()),
            decreases self.entries.len() - i,
        {
            i = i + 1;
        }
        if i < self.entries.len() && self.entries[i].0.same(k) {
            return (i, true);
        }
        proof {
            if i < self.entries@.len() {
                let ki = self.entries@[i as int].0.name();
                lemma_name_order(ki, k.name(), ki);
                assert(name_lt(k.name(), ki));
                assert forall|j: int| i <= j < self.entries@.len() implies name_lt(k.name(), #[trigger] self.entries@[j].0.name()) by {
                    if j > i {
                        assert(name_lt(self.entries@[i as int].0.name(), self.entries@[j].0.name()));
                        lemma_name_order(k.name(), ki, self.entries@[j].0.name());
                    }
                }
            }
        }
        (i, false)
    }

    /// The counter of `k`, 0 when there is none.
    pub fn get(&self, k: &NodeId) -> (r: u64)
        requires
            self.wf(),
        ensures
            r == count_at(self@, k.name()),
    {
        let (i, found) = self.search(k);
        proof {
            if found {
                lemma_lookup(self.entries@, i as int);
            } else if has_key(self.entries@, k.name()) {
                let j = key_index(self.entries@, k.name());
                lemma_name_order(k.name(), k.name(), k.name());
                if j < i {
                    assert(name_lt(self.entries@[j].0.name(), k.name()));
                } else {
                    assert(name_lt(k.name(), self.entries@[j].0.name()));
                }
            }
        }
        if found {
            self.entries[i].1
        } else {
            0
        }
    }

    /// Sets the counter of `k` to `v`.
    pub fn set(&mut self, k: &NodeId, v: u64)
        requires
            old(self).wf(),
        ensures
            final(self).wf(),
            final(self)@ == old(self)@.insert(k.name(), v),
    {
        let (i, found) = self.search(k);
        let ghost s = self.entries@;
        if found {
            let key = self.entries[i].0.copy();
            self.entries.set(i, (key, v));
            proof {
                let t = self.entries@;
                assert forall|a: int, b: int| 0 <= a < b < t.len() implies name_lt(#[trigger] t[a].0.name(), #[trigger] t[b].0.name()) by {
                    assert(t[a].0.name() == s[a].0.name());
                    assert(t[b].0.name() == s[b].0.name());
                }
                lemma_lookup(t, i as int);
                assert forall|q: Seq<char>| #[trigger] entries_map(t).contains_key(q) == entries_map(s).insert(k.name(), v).contains_key(q) by {
                    if has_key(s, q) {
                        let j = key_index(s, q);
                        assert(t[j].0.name() == s[j].0.name());
                    }
                    if has_key(t, q) {
                        let j = key_index(t, q);
                        assert(t[j].0.name() == s[j].0.name());
                    }
                }
                assert forall|q: Seq<char>| #[trigger] entries_map(t).contains_key(q) && q != k.name() implies entries_map(t)[q] == entries_map(s)[q] by {
                    let j = key_index(t, q);
                    assert(j != i);
                    lemma_lookup(t, j);
                    lemma_lookup(s, j);
                }
                assert(entries_map(t) =~= entries_map(s).insert(k.name(), v));
            }
        } else {
            let key = k.copy();
            self.entries.insert(i, (key, v));
            proof {
                let t = self.entries@;
                assert forall|a: int, b: int| 0 <= a < b < t.len() implies name_lt(#[trigger] t[a].0.name(), #[trigger] t[b].0.name()) by {
                    if b < i {
                        assert(t[a] == s[a] && t[b] == s[b]);
                    } else if b == i {
                        assert(t[a] == s[a]);
                    } else if a < i {
                        assert(t[a] == s[a] && t[b] == s[b - 1]);
                        lemma_name_order(s[a].0.name(), k.name(), s[b - 1].0.name());
                    } else if a == i {
                        assert(t[b] == s[b - 1]);
                    } else {
                        assert(t[a] == s[a - 1] && t[b] == s[b - 1]);
                    }
                }
                lemma_lookup(t, i as int);
                assert forall|q: Seq<char>| #[trigger] entries_map(t).contains_key(q) == entries_map(s).insert(k.name(), v).contains_key(q) by {
                    if has_key(s, q) {
                        let j = key_index(s, q);
                        if j < i {
                            assert(t[j] == s[j]);
                        } else {
                            assert(t[j + 1] == s[j]);
                        }
                    }
                    if has_key(t, q) && q != k.name() {
                        let j = key_index(t, q);
                        if j < i {
                            assert(t[j] == s[j]);
                        } else {
                            assert(j != i);
                            assert(t[j] == s[j - 1]);
                        }
                    }
                }
                assert forall|q: Seq<char>| #[trigger] entries_map(t).contains_key(q) && q != k.name() implies entries_map(t)[q] == entries_map(s)[q] by {
                    let j = key_index(t, q);
                    assert(j != i);
                    lemma_lookup(t, j);
                    if j < i {
                        assert(t[j] == s[j]);
                        lemma_lookup(s, j);
                    } else {
                        assert(t[j] == s[j - 1]);
                        lemma_lookup(s, j - 1);
                    }
                }
                assert(entries_map(t) =~= entries_map(s).insert(k.name(), v));
            }
        }
    }

    /// Number of nodes with a counter.
    pub fn len(&self) -> (r: usize)
        requires
            self.wf(),
        ensures
            r == self@.dom().len(),
    {
        proof {
            lemma_map_len(self.entries@);
        }
        self.entries.len()
    }

    /// Raises every counter to at least that of `other` for the same node.
    pub fn merge_max(&mut self, other: &NodeCounts)
        requires
            old(self).wf(),
            other.wf(),
        ensures
            final(self).wf(),
            final(self)@ == pointwise_max(old(self)@, other@),
    {
        let ghost start = self@;
        let ghost os = other.entries@;
        proof {
            lemma_take_all(os);
            assert(pointwise_max(start, entries_map(os.take(0))) =~= start);
        }
        let mut i: usize = 0;
        while i < other.entries.len()
            invariant
                i <= os.len(),
                os == other.entries@,
                strictly_sorted(os),
                self.wf(),
                self@ == pointwise_max(start, entries_map(os.take(i as int))),
            decreases os.len() - i,
        {
            let k = &other.entries[i].0;
            let v = other.entries[i].1;
            let cur = self.get(k);
            let m = if cur >= v { cur } else { v };
            self.set(k, m);
            proof {
                lemma_map_take_step(os, i as int);
                let before = entries_map(os.take(i as int));
                let after = entries_map(os.take(i + 1));
                assert(!before.contains_key(k.name()) || before[k.name()] == v) by {
                    if before.contains_key(k.name()) {
                        lemma_sorted_subrange(os, 0, i as int);
                        let j = key_index(os.take(i as int), k.name());
                        assert(os.take(i as int)[j] == os[j]);
                        assert(name_lt(os[j].0.name(), os[i as int].0.name()));
                        lemma_name_order(k.name(), k.name(), k.name());
                    }
                }
                assert(self@ =~= pointwise_max(start, after));
            }
            i = i + 1;
        }
        proof {
            lemma_take_all(os);
        }
    }

    /// `true` when every counter of `self` is at most that of `other` for
    /// the same node (0 where `other` has none).
    pub fn all_le(&self, other: &NodeCounts) -> (r: bool)
        requires
            self.wf(),
            other.wf(),
        ensures
            r == (forall|k: Seq<char>| #[trigger] self@.contains_key(k) ==> self@[k] <= count_at(other@, k)),
    {
        let mut i: usize = 0;
        while i < self.entries.len()
            invariant
                i <= self.entries@.len(),
                self.wf(),
                other.wf(),
                forall|j: int| 0 <= j < i ==> #[trigger] self.entries@[j].1 <= count_at(other@, self.entries@[j].0.name()),
            decreases self.entries.len() - i,
        {
            let c = self.entries[i].1;
            if c > other.get(&self.entries[i].0) {
                proof {
                    lemma_lookup(self.entries@, i as int);
                    let k = self.entries@[i as int].0.name();
                    assert(self@.contains_key(k) && self@[k] > count_at(other@, k));
                }
                return false;
            }
            i = i + 1;
        }
        assert forall|k: Seq<char>| #[trigger] self@.contains_key(k) implies self@[k] <= count_at(other@, k) by {
            let j = key_index(self.entries@, k);
            lemma_lookup(self.entries@, j);
        }
        true
    }

    /// `true` when both describe the same map.
    pub fn same_counts(&self, other: &NodeCounts) -> (r: bool)
        requires
            self.wf(),
            other.wf(),
        ensures
            r == (self@ == other@),
    {
        if self.entries.len() != other.entries.len() {
            proof {
                lemma_map_len(self.entries@);
                lemma_map_len(other.entries@);
            }
            return false;
        }
        let mut i: usize = 0;
        while i < self.entries.len()
            invariant
                i <= self.entries@.len(),
                self.entries@.len() == other.entries@.len(),
                self.wf(),
                other.wf(),
                forall|j: int| #![trigger self.entries@[j]] 0 <= j < i ==> self.entries@[j].0.name() == other.entries@[j].0.name() && self.entries@[j].1 == other.entries@[j].1,
            decreases self.entries.len() - i,
        {
            if !self.entries[i].0.same(&other.entries[i].0) || self.entries[i].1 != other.entries[i].1 {
                proof {
                    if self@ == other@ {
                        lemma_canonical(self.entries@, other.entries@);
                        assert(abstract_entries(self.entries@)[i as int] == abstract_entries(other.entries@)[i as int]);
                    }
                }
                return false;
            }
            i = i + 1;
        }
        proof {
            let a = abstract_entries(self.entries@);
            let b = abstract_entries(other.entries@);
            assert(a =~= b);
            assert(self@ =~= other@) by {
                assert forall|k: Seq<char>| #[trigger] self@.contains_key(k) == other@.contains_key(k) by {
                    if has_key(self.entries@, k) {
                        let j = key_index(self.entries@, k);
                        assert(a[j].0 == b[j].0);
                    }
                    if has_key(other.entries@, k) {
                        let j = key_index(other.entries@, k);
                        assert(a[j].0 == b[j].0);
                    }
                }
                assert forall|k: Seq<char>| #[trigger] self@.contains_key(k) implies self@[k] == other@[k] by {
                    let j = key_index(self.entries@, k);
                    lemma_lookup(self.entries@, j);
                    assert(a[j] == b[j]);
                    lemma_lookup(other.entries@, j);
                }
            }
        }
        true
    }

    /// Sum of all counters.
    pub fn total(&self) -> (r: u64)
        requires
            self.wf(),
            values_sum(self.ordered()) <= u64::MAX,
        ensures
            r == values_sum(self.ordered()),
    {
        let ghost a = self.ordered();
        let mut sum: u64 = 0;
        let mut i: usize = 0;
        assert(a.take(0) =~= Seq::<(Seq<char>, u64)>::empty());
        while i < self.entries.len()
            invariant
                i <= self.entries@.len(),
                a == abstract_entries(self.entries@),
                sum == values_sum(a.take(i as int)),
                values_sum(a) <= u64::MAX,
            decreases self.entries.len() - i,
        {
            proof {
                assert(a.take(i + 1).drop_last() =~= a.take(i as int));
                lemma_values_sum_prefix(a, i + 1);
            }
            sum = sum + self.entries[i].1;
            i = i + 1;
        }
        assert(a.take(i as int) =~= a);
        sum
    }

    /// The entries in order of node name, as pairs of name and counter.
    pub fn to_vec(&self) -> (r: Vec<(NodeId, u64)>)
        ensures
            abstract_entries(r@) == self.ordered(),
    {
        let mut out: Vec<(NodeId, u64)> = Vec::new();
        let mut i: usize = 0;
        while i < self.entries.len()
            invariant
                i <= self.entries@.len(),
                out@.len() == i,
                forall|j: int| 0 <= j < i ==> (#[trigger] out@[j]).0.name() == self.entries@[j].0.name() && out@[j].1 == self.entries@[j].1,
            decreases self.entries.len() - i,
        {
            out.push((self.entries[i].0.copy(), self.entries[i].1));
            i = i + 1;
        }
        assert(abstract_entries(out@) =~= abstract_entries(self.entries@));
        out
    }
}

pub proof fn lemma_values_sum_prefix(s: Seq<(Seq<char>, u64)>, n: int)
    requires
        0 <= n <= s.len(),
    ensures
        values_sum(s.take(n)) <= values_sum(s),
    decreases s.len() - n,
{
    if n < s.len() {
        lemma_values_sum_prefix(s, n + 1);
        assert(s.take(n + 1).drop_last() =~= s.take(n));
    } else {
        assert(s.take(n) =~= s);
    }
}

} // verus!
