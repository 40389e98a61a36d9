//! Convergence laws of the replicated counters and clocks: merging is
//! commutative, associative and idempotent, so replicas that exchange state
//! in any order end up equal.

use vstd::prelude::*;
use crate::sync::counts::{count_at, counts_sum, pointwise_max};
use crate::sync::vector_clock::{clock_concurrent, clock_le, clock_lt};
use crate::sync::gcounter::GCounter;
use crate::sync::hlc::{HlcTimestamp, HybridClock, hlc_lt, hlc_same};
use crate::sync::lww::{LWWEntry, LWWRegister, lemma_hlc_order, merged_entry, register_merged, write_applies};
use crate::sync::orset::{live_apart, orset_merged, present, tags_of, tags_union};

verus! {

/// Merging counters is commutative.
pub proof fn lemma_merge_commutative(a: Map<Seq<char>, u64>, b: Map<Seq<char>, u64>)
    ensures
        pointwise_max(a, b) == pointwise_max(b, a),
{
    assert(pointwise_max(a, b) =~= pointwise_max(b, a));
}

/// Merging counters is associative.
pub proof fn lemma_merge_associative(a: Map<Seq<char>, u64>, b: Map<Seq<char>, u64>, c: Map<Seq<char>, u64>)
    ensures
        pointwise_max(pointwise_max(a, b), c) == pointwise_max(a, pointwise_max(b, c)),
{
    assert(pointwise_max(pointwise_max(a, b), c) =~= pointwise_max(a, pointwise_max(b, c)));
}

/// Merging counters with themselves changes nothing.
pub proof fn lemma_merge_idempotent(a: Map<Seq<char>, u64>)
    ensures
        pointwise_max(a, a) == a,
{
    assert(pointwise_max(a, a) =~= a);
}

/// The merge of two clocks is the least clock that both are before or equal to.
pub proof fn lemma_merge_least_upper_bound(a: Map<Seq<char>, u64>, b: Map<Seq<char>, u64>, c: Map<Seq<char>, u64>)
    ensures
        clock_le(a, pointwise_max(a, b)),
        clock_le(b, pointwise_max(a, b)),
        clock_le(a, c) && clock_le(b, c) ==> clock_le(pointwise_max(a, b), c),
{
    let m = pointwise_max(a, b);
    assert forall|k: Seq<char>| #[trigger] b.contains_key(k) implies b[k] <= count_at(m, k) by {
        assert(m.contains_key(k));
    }
    assert forall|k: Seq<char>| #[trigger] a.contains_key(k) implies a[k] <= count_at(m, k) by {
        assert(m.contains_key(k));
    }
    if clock_le(a, c) && clock_le(b, c) {
        assert forall|k: Seq<char>| #[trigger] m.contains_key(k) implies m[k] <= count_at(c, k) by {
            if a.contains_key(k) {
                assert(a[k] <= count_at(c, k));
            }
            if b.contains_key(k) {
                assert(b[k] <= count_at(c, k));
            }
        }
    }
}

/// Causal order is reflexive and transitive.
pub proof fn lemma_clock_le_preorder(a: Map<Seq<char>, u64>, b: Map<Seq<char>, u64>, c: Map<Seq<char>, u64>)
    ensures
        clock_le(a, a),
        clock_le(a, b) && clock_le(b, c) ==> clock_le(a, c),
{
    if clock_le(a, b) && clock_le(b, c) {
        assert forall|k: Seq<char>| #[trigger] a.contains_key(k) implies a[k] <= count_at(c, k) by {
            assert(a[k] <= count_at(b, k));
            if b.contains_key(k) {
                assert(b[k] <= count_at(c, k));
            }
        }
    }
}

/// A clock is never concurrent with, nor strictly before, itself;
/// concurrency is symmetric, and clocks in causal order are not concurrent.
pub proof fn lemma_clock_concurrency(a: Map<Seq<char>, u64>, b: Map<Seq<char>, u64>)
    ensures
        !clock_concurrent(a, a),
        !clock_lt(a, a),
        clock_concurrent(a, b) == clock_concurrent(b, a),
        clock_le(a, b) ==> !clock_concurrent(a, b),
{
}

/// Incrementing a node's counter moves the clock strictly forward.
pub proof fn lemma_increment_strictly_after(a: Map<Seq<char>, u64>, k: Seq<char>, v: u64)
    requires
        v == count_at(a, k) + 1,
    ensures
        clock_lt(a, a.insert(k, v)),
        !clock_le(a.insert(k, v), a),
{
    let b = a.insert(k, v);
    assert forall|q: Seq<char>| #[trigger] a.contains_key(q) implies a[q] <= count_at(b, q) by {
        if q == k {
        }
    }
    assert(b.contains_key(k) && b[k] > count_at(a, k));
    if a == b {
        assert(a[k] == v);
    }
}

/// Replicas that merge each other's grow-only counters, in either order,
/// report the same total.
pub proof fn lemma_gcounter_merge_same_total(ab: &GCounter, ba: &GCounter, a: Map<Seq<char>, u64>, b: Map<Seq<char>, u64>)
    requires
        ab.wf(),
        ba.wf(),
        ab@ == pointwise_max(a, b),
        ba@ == pointwise_max(b, a),
    ensures
        ab@ == ba@,
        ab.total() == ba.total(),
{
    lemma_merge_commutative(a, b);
    GCounter::lemma_total_of_view(ab, ba);
}

/// Merging registers in either order keeps the write with the later
/// timestamp: both results carry that timestamp and a clone of its value.
pub proof fn lemma_register_merge_commutative<T: Clone>(
    a: LWWRegister<T>,
    b: LWWRegister<T>,
    ab: LWWRegister<T>,
    ba: LWWRegister<T>,
)
    requires
        !hlc_same(a.timestamp, b.timestamp),
        register_merged(a, b, ab),
        register_merged(b, a, ba),
    ensures
        hlc_same(ab.timestamp, ba.timestamp),
        hlc_lt(a.timestamp, b.timestamp) ==> ba == b && cloned(b.value, ab.value),
        hlc_lt(b.timestamp, a.timestamp) ==> ab == a && cloned(a.value, ba.value),
{
    lemma_hlc_order(a.timestamp, b.timestamp, a.timestamp);
    lemma_hlc_order(ab.timestamp, ba.timestamp, a.timestamp);
}

/// Merging a register with an equal copy of itself changes nothing.
pub proof fn lemma_register_merge_idempotent<T: Clone>(a: LWWRegister<T>, r: LWWRegister<T>)
    requires
        register_merged(a, a, r),
    ensures
        r == a,
{
    lemma_hlc_order(a.timestamp, a.timestamp, a.timestamp);
}

/// Merging LWW maps in either order agrees on every key: the same timestamp
/// and the same liveness, provided the two maps never hold different writes
/// under the same timestamp.
pub proof fn lemma_map_merge_commutative<V: Clone>(
    a: Map<Seq<char>, LWWEntry<V>>,
    b: Map<Seq<char>, LWWEntry<V>>,
    k: Seq<char>,
    ab: LWWEntry<V>,
    ba: LWWEntry<V>,
)
    requires
        a.contains_key(k) || b.contains_key(k),
        a.contains_key(k) && b.contains_key(k) ==> !hlc_same(a[k].timestamp, b[k].timestamp),
        merged_entry(a, b, k, ab),
        merged_entry(b, a, k, ba),
    ensures
        hlc_same(ab.timestamp, ba.timestamp),
        (ab.value is Some) == (ba.value is Some),
{
    if a.contains_key(k) && b.contains_key(k) {
        lemma_hlc_order(a[k].timestamp, b[k].timestamp, a[k].timestamp);
        lemma_hlc_order(ab.timestamp, a[k].timestamp, b[k].timestamp);
        lemma_hlc_order(ba.timestamp, a[k].timestamp, b[k].timestamp);
    } else if a.contains_key(k) {
        lemma_hlc_order(ab.timestamp, a[k].timestamp, a[k].timestamp);
        lemma_hlc_order(ba.timestamp, a[k].timestamp, a[k].timestamp);
    } else {
        lemma_hlc_order(ab.timestamp, b[k].timestamp, b[k].timestamp);
        lemma_hlc_order(ba.timestamp, b[k].timestamp, b[k].timestamp);
    }
}

/// Merging an LWW map with itself keeps every entry.
pub proof fn lemma_map_merge_idempotent<V: Clone>(a: Map<Seq<char>, LWWEntry<V>>, k: Seq<char>, e: LWWEntry<V>)
    requires
        a.contains_key(k),
        merged_entry(a, a, k, e),
    ensures
        e == a[k],
{
    lemma_hlc_order(a[k].timestamp, a[k].timestamp, a[k].timestamp);
    assert(!write_applies(a, k, a[k].timestamp));
}

/// Merging observed-remove sets is commutative: the live tags and the
/// retired tags come out the same in either order.
pub proof fn lemma_orset_merge_commutative(
    a: Map<Seq<char>, Set<(Seq<char>, u64)>>,
    ra: Set<(Seq<char>, u64)>,
    b: Map<Seq<char>, Set<(Seq<char>, u64)>>,
    rb: Set<(Seq<char>, u64)>,
)
    ensures
        orset_merged(a, ra, b, rb) == orset_merged(b, rb, a, ra),
        ra.union(rb) == rb.union(ra),
{
    let l = orset_merged(a, ra, b, rb);
    let r = orset_merged(b, rb, a, ra);
    assert forall|k: Seq<char>| #[trigger] l.contains_key(k) implies l[k] == r[k] by {
        assert(l[k] =~= r[k]);
    }
    assert(l =~= r);
    assert(ra.union(rb) =~= rb.union(ra));
}

/// Merging observed-remove sets is associative.
pub proof fn lemma_orset_merge_associative(
    a: Map<Seq<char>, Set<(Seq<char>, u64)>>,
    ra: Set<(Seq<char>, u64)>,
    b: Map<Seq<char>, Set<(Seq<char>, u64)>>,
    rb: Set<(Seq<char>, u64)>,
    c: Map<Seq<char>, Set<(Seq<char>, u64)>>,
    rc: Set<(Seq<char>, u64)>,
)
    ensures
        orset_merged(orset_merged(a, ra, b, rb), ra.union(rb), c, rc)
            == orset_merged(a, ra, orset_merged(b, rb, c, rc), rb.union(rc)),
        ra.union(rb).union(rc) == ra.union(rb.union(rc)),
{
    let ab = orset_merged(a, ra, b, rb);
    let bc = orset_merged(b, rb, c, rc);
    let l = orset_merged(ab, ra.union(rb), c, rc);
    let r = orset_merged(a, ra, bc, rb.union(rc));
    assert forall|k: Seq<char>| #[trigger] l.contains_key(k) implies l[k] == r[k] by {
        assert(tags_of(ab, k) =~= tags_of(a, k).union(tags_of(b, k)).difference(ra.union(rb)));
        assert(tags_of(bc, k) =~= tags_of(b, k).union(tags_of(c, k)).difference(rb.union(rc)));
        assert(l[k] =~= r[k]);
    }
    assert(l =~= r);
    assert(ra.union(rb).union(rc) =~= ra.union(rb.union(rc)));
}

/// Every merged state keeps its live tags apart from its retired tags.
pub proof fn lemma_orset_merged_live_apart(
    a: Map<Seq<char>, Set<(Seq<char>, u64)>>,
    ra: Set<(Seq<char>, u64)>,
    b: Map<Seq<char>, Set<(Seq<char>, u64)>>,
    rb: Set<(Seq<char>, u64)>,
)
    ensures
        live_apart(orset_merged(a, ra, b, rb), ra.union(rb)),
{
    let m = orset_merged(a, ra, b, rb);
    assert forall|k: Seq<char>| m.contains_key(k) implies #[trigger] m[k].disjoint(ra.union(rb)) by {
    }
}

/// Merging an observed-remove set with itself changes nothing, for a state
/// whose live tags are apart from its retired tags.
pub proof fn lemma_orset_merge_idempotent(a: Map<Seq<char>, Set<(Seq<char>, u64)>>, ra: Set<(Seq<char>, u64)>)
    requires
        live_apart(a, ra),
    ensures
        orset_merged(a, ra, a, ra) == a,
        ra.union(ra) == ra,
{
    let m = orset_merged(a, ra, a, ra);
    assert forall|k: Seq<char>| #[trigger] m.contains_key(k) implies m[k] == a[k] by {
        assert(a[k].disjoint(ra));
        assert(m[k] =~= a[k]);
    }
    assert(m =~= a);
    assert(ra.union(ra) =~= ra);
}

/// After a merge an element is present exactly when one side holds a tag
/// for it that neither side has retired: an add that a remove did not
/// observe wins, and a remove of every observed tag survives the merge.
pub proof fn lemma_orset_merged_present(
    a: Map<Seq<char>, Set<(Seq<char>, u64)>>,
    ra: Set<(Seq<char>, u64)>,
    b: Map<Seq<char>, Set<(Seq<char>, u64)>>,
    rb: Set<(Seq<char>, u64)>,
    k: Seq<char>,
)
    ensures
        present(orset_merged(a, ra, b, rb), k) <==> exists|t: (Seq<char>, u64)|
            (#[trigger] tags_of(a, k).union(tags_of(b, k)).contains(t)) && !ra.union(rb).contains(t),
{
    let m = orset_merged(a, ra, b, rb);
    let u = tags_of(a, k).union(tags_of(b, k));
    if present(m, k) {
        let t = m[k].choose();
        assert(m[k].contains(t));
        assert(u.contains(t) && !ra.union(rb).contains(t));
    }
    if exists|t: (Seq<char>, u64)| (#[trigger] u.contains(t)) && !ra.union(rb).contains(t) {
        let t = choose|t: (Seq<char>, u64)| (#[trigger] u.contains(t)) && !ra.union(rb).contains(t);
        assert(tags_union(a, b).contains_key(k));
        assert(m[k].contains(t));
    }
}

/// A remove survives a merge: when one replica has retired every tag that
/// the other holds for an element and no longer lists it, the element is
/// absent after the merge.
pub proof fn lemma_orset_remove_survives_merge(
    a: Map<Seq<char>, Set<(Seq<char>, u64)>>,
    ra: Set<(Seq<char>, u64)>,
    b: Map<Seq<char>, Set<(Seq<char>, u64)>>,
    rb: Set<(Seq<char>, u64)>,
    k: Seq<char>,
)
    requires
        tags_of(a, k).subset_of(rb),
        !b.contains_key(k),
    ensures
        !present(orset_merged(a, ra, b, rb), k),
{
    lemma_orset_merged_present(a, ra, b, rb, k);
    assert forall|t: (Seq<char>, u64)| #[trigger] tags_of(a, k).union(tags_of(b, k)).contains(t) implies ra.union(rb).contains(t) by {
        assert(tags_of(a, k).contains(t));
    }
}

/// The stamps a hybrid clock hands out, each after the one before it (as
/// `tick`, `now`, `observe` and `receive` each ensure of the clock's state
/// before the call), are each after every earlier one.
pub proof fn lemma_hlc_stamps_increase(ts: Seq<HlcTimestamp>)
    requires
        forall|i: int| 0 <= i < ts.len() - 1 ==> hlc_lt(#[trigger] ts[i], ts[i + 1]),
    ensures
        forall|i: int, j: int| 0 <= i < j < ts.len() ==> hlc_lt(#[trigger] ts[i], #[trigger] ts[j]),
    decreases ts.len(),
{
    if ts.len() > 1 {
        let p = ts.drop_last();
        assert forall|i: int| 0 <= i < p.len() - 1 implies hlc_lt(#[trigger] p[i], p[i + 1]) by {
            assert(hlc_lt(ts[i], ts[i + 1]));
        }
        lemma_hlc_stamps_increase(p);
        let n = ts.len() - 1;
        assert(hlc_lt(ts[n - 1], ts[n]));
        assert forall|i: int, j: int| 0 <= i < j < ts.len() implies hlc_lt(#[trigger] ts[i], #[trigger] ts[j]) by {
            if j < n {
                assert(hlc_lt(p[i], p[j]));
            } else if i < n - 1 {
                assert(hlc_lt(p[i], p[n - 1]));
                lemma_hlc_order(ts[i], ts[n - 1], ts[n]);
            }
        }
    }
}

/// The sum of the amounts of a run of increments.
pub open spec fn amounts_sum(ops: Seq<(Seq<char>, u64)>) -> int
    decreases ops.len(),
{
    if ops.len() == 0 {
        0
    } else {
        amounts_sum(ops.drop_last()) + ops.last().1
    }
}

/// The sum of the amounts of a run of increments that went to node `k`.
pub open spec fn node_amounts(ops: Seq<(Seq<char>, u64)>, k: Seq<char>) -> int
    decreases ops.len(),
{
    if ops.len() == 0 {
        0
    } else {
        node_amounts(ops.drop_last(), k) + if ops.last().0 == k { ops.last().1 as int } else { 0 }
    }
}

/// A grow-only counter that goes from empty through a run of increments
/// (each of `ops` adds its amount to its node's slot, as `increment` and
/// `increment_by` do) holds, for each node, the sum of that node's
/// amounts, and in total the sum of all amounts.
pub proof fn lemma_gcounter_history(ms: Seq<Map<Seq<char>, u64>>, ops: Seq<(Seq<char>, u64)>)
    requires
        ms.len() == ops.len() + 1,
        ms[0] == Map::<Seq<char>, u64>::empty(),
        forall|i: int| 0 <= i < ops.len() ==> count_at(ms[i], (#[trigger] ops[i]).0) + ops[i].1 <= u64::MAX
            && ms[i + 1] == ms[i].insert(ops[i].0, (count_at(ms[i], ops[i].0) + ops[i].1) as u64),
    ensures
        ms.last().dom().finite(),
        counts_sum(ms.last()) == amounts_sum(ops),
        forall|k: Seq<char>| count_at(ms.last(), k) == #[trigger] node_amounts(ops, k),
    decreases ops.len(),
{
    if ops.len() == 0 {
        assert(ms.last() == ms[0]);
        assert(ms[0].dom() =~= Set::<Seq<char>>::empty());
        assert(counts_sum(ms[0]) == 0);
    } else {
        let n = ops.len() - 1;
        let pm = ms.drop_last();
        let po = ops.drop_last();
        assert forall|i: int| 0 <= i < po.len() implies count_at(pm[i], (#[trigger] po[i]).0) + po[i].1 <= u64::MAX
            && pm[i + 1] == pm[i].insert(po[i].0, (count_at(pm[i], po[i].0) + po[i].1) as u64) by {
            assert(ops[i] == po[i]);
        }
        lemma_gcounter_history(pm, po);
        let prev = ms[n];
        assert(pm.last() == prev);
        assert(ops[n] == ops.last());
        let k0 = ops[n].0;
        let v = (count_at(prev, k0) + ops[n].1) as u64;
        assert(ms.last() == prev.insert(k0, v));
        crate::sync::counts::lemma_counts_sum_insert(prev, k0, v);
        assert forall|k: Seq<char>| count_at(ms.last(), k) == #[trigger] node_amounts(ops, k) by {
            assert(node_amounts(po, k) == count_at(prev, k));
        }
    }
}

/// Merging the same LWW map in a second time changes nothing: every key
/// keeps exactly what the first merge left.
pub proof fn lemma_map_remerge_unchanged<V: Clone>(
    a: Map<Seq<char>, LWWEntry<V>>,
    b: Map<Seq<char>, LWWEntry<V>>,
    ab: Map<Seq<char>, LWWEntry<V>>,
    abb: Map<Seq<char>, LWWEntry<V>>,
)
    requires
        ab.dom() == a.dom().union(b.dom()),
        forall|k: Seq<char>| ab.contains_key(k) ==> merged_entry(a, b, k, #[trigger] ab[k]),
        abb.dom() == ab.dom().union(b.dom()),
        forall|k: Seq<char>| abb.contains_key(k) ==> merged_entry(ab, b, k, #[trigger] abb[k]),
    ensures
        abb == ab,
{
    assert forall|k: Seq<char>| #[trigger] abb.contains_key(k) implies abb[k] == ab[k] by {
        assert(ab.contains_key(k));
        assert(merged_entry(a, b, k, ab[k]));
        if b.contains_key(k) {
            lemma_hlc_order(ab[k].timestamp, b[k].timestamp, b[k].timestamp);
            if write_applies(a, k, b[k].timestamp) {
                assert(hlc_same(ab[k].timestamp, b[k].timestamp));
            } else {
                assert(ab[k] == a[k]);
            }
            assert(!write_applies(ab, k, b[k].timestamp));
        }
    }
    assert(abb.dom() =~= ab.dom());
    assert(abb =~= ab);
}

/// Along a run of calls of a hybrid clock (`now`, `tick`, `observe`,
/// `receive`), where each call's stamp is the clock's state after it and is
/// after its state before it, every stamp is after every earlier one.
pub proof fn lemma_hybrid_clock_run(states: Seq<HybridClock>, stamps: Seq<HlcTimestamp>)
    requires
        states.len() == stamps.len() + 1,
        forall|i: int| 0 <= i < stamps.len() ==> {
            &&& (#[trigger] stamps[i]).wall_ms == states[i + 1].last_wall_ms()
            &&& stamps[i].counter == states[i + 1].counter()
            &&& stamps[i].node_id.name() == states[i + 1].node()
            &&& states[i + 1].node() == states[i].node()
            &&& hlc_lt(states[i].current(stamps[i].node_id), stamps[i])
        },
    ensures
        forall|i: int, j: int| 0 <= i < j < stamps.len() ==> hlc_lt(#[trigger] stamps[i], #[trigger] stamps[j]),
{
    assert forall|i: int| 0 <= i < stamps.len() - 1 implies hlc_lt(#[trigger] stamps[i], stamps[i + 1]) by {
        let a = stamps[i];
        let b = stamps[i + 1];
        assert(hlc_lt(states[i + 1].current(b.node_id), b));
    }
    lemma_hlc_stamps_increase(stamps);
}

} // verus!
