//! Hybrid logical clocks: wall-clock timestamps with a logical counter that
//! keep causal order under clock skew.

use vstd::prelude::*;
use crate::sync::node::{NodeId, name_lt};
use crate::time::now_millis;

verus! {

/// Timestamp of a hybrid logical clock, ordered by
/// `(wall_ms, counter, node_id)`.
#[derive(Clone, PartialEq, Eq, PartialOrd, Ord, Debug)]
pub struct HlcTimestamp {
    /// Wall-clock milliseconds since the Unix epoch.
    pub wall_ms: u64,
    /// Logical counter for events at the same `wall_ms`.
    pub counter: u32,
    /// Originating node.
    pub node_id: NodeId,
}

/// The total order of timestamps: wall time, then counter, then node name.
pub open spec fn hlc_lt(a: HlcTimestamp, b: HlcTimestamp) -> bool {
    ||| a.wall_ms < b.wall_ms
    ||| (a.wall_ms == b.wall_ms && a.counter < b.counter)
    ||| (a.wall_ms == b.wall_ms && a.counter == b.counter && name_lt(a.node_id.name(), b.node_id.name()))
}

/// Two timestamps carry the same wall time, counter and node name.
pub open spec fn hlc_same(a: HlcTimestamp, b: HlcTimestamp) -> bool {
    a.wall_ms == b.wall_ms && a.counter == b.counter && a.node_id.name() == b.node_id.name()
}

impl HlcTimestamp {
    /// A timestamp from explicit components.
    pub fn from_parts(wall_ms: u64, counter: u32, node_id: &NodeId) -> (r: HlcTimestamp)
        ensures
            r.wall_ms == wall_ms,
            r.counter == counter,
            r.node_id.name() == node_id.name(),
    {
        HlcTimestamp { wall_ms, counter: counter, node_id: node_id.copy() }
    }

    /// A timestamp at the current wall-clock time with counter 0.
    pub fn now(node_id: &NodeId) -> (r: HlcTimestamp)
        ensures
            r.counter == 0,
            r.node_id.name() == node_id.name(),
    {
        let wall_ms = now_millis() as u64;
        HlcTimestamp::from_parts(wall_ms, 0, node_id)
    }

    /// `self` orders strictly before `other`.
    pub fn is_before(&self, other: &HlcTimestamp) -> (r: bool)
        ensures
            r == hlc_lt(*self, *other),
    {
        self.wall_ms < other.wall_ms || (self.wall_ms == other.wall_ms && (self.counter < other.counter
            || (self.counter == other.counter && self.node_id.less(&other.node_id))))
    }

    pub fn copy(&self) -> (r: HlcTimestamp)
        ensures
            hlc_same(r, *self),
    {
        HlcTimestamp { wall_ms: self.wall_ms, counter: self.counter, node_id: self.node_id.copy() }
    }
}

/// State of the hybrid logical clock of one node.
pub struct HybridClock {
    node_id: NodeId,
    last_wall_ms: u64,
    counter: u32,
}

impl HybridClock {
    pub closed spec fn node(&self) -> Seq<char> {
        self.node_id.name()
    }

    pub closed spec fn last_wall_ms(&self) -> u64 {
        self.last_wall_ms
    }

    pub closed spec fn counter(&self) -> u32 {
        self.counter
    }

    /// The timestamp that the clock state stands for.
    pub open spec fn current(&self, node: NodeId) -> HlcTimestamp {
        HlcTimestamp { wall_ms: self.last_wall_ms(), counter: self.counter(), node_id: node }
    }

    pub fn new(node_id: NodeId) -> (r: HybridClock)
        ensures
            r.node() == node_id.name(),
            r.last_wall_ms() == 0,
            r.counter() == 0,
    {
        HybridClock { node_id, last_wall_ms: 0, counter: 0 }
    }

    pub fn node_id(&self) -> (r: &NodeId)
        ensures
            r.name() == self.node(),
    {
        &self.node_id
    }

    fn stamp(&self) -> (r: HlcTimestamp)
        ensures
            r.wall_ms == self.last_wall_ms,
            r.counter == self.counter,
            r.node_id.name() == self.node_id.name(),
    {
        HlcTimestamp { wall_ms: self.last_wall_ms, counter: self.counter, node_id: self.node_id.copy() }
    }

    /// A new local timestamp given the wall-clock reading `wall_ms`: the
    /// wall time if it moved forward, otherwise the last one with the counter
    /// bumped.
    pub fn tick(&mut self, wall_ms: u64) -> (r: HlcTimestamp)
        requires
            wall_ms > old(self).last_wall_ms() || old(self).counter() < u32::MAX,
        ensures
            final(self).node() == old(self).node(),
            wall_ms > old(self).last_wall_ms() ==> final(self).last_wall_ms() == wall_ms && final(self).counter() == 0,
            wall_ms <= old(self).last_wall_ms() ==> final(self).last_wall_ms() == old(self).last_wall_ms()
                && final(self).counter() == old(self).counter() + 1,
            r.wall_ms == final(self).last_wall_ms(),
            r.counter == final(self).counter(),
            r.node_id.name() == final(self).node(),
            hlc_lt(old(self).current(r.node_id), r),
    {
        if wall_ms > self.last_wall_ms {
            self.last_wall_ms = wall_ms;
            self.counter = 0;
        } else {
            self.counter = self.counter + 1;
        }
        self.stamp()
    }

    /// A new local timestamp at the current wall-clock time; monotonically
    /// increasing even when the wall clock goes backwards.
    pub fn now(&mut self) -> (r: HlcTimestamp)
        requires
            old(self).counter() < u32::MAX,
        ensures
            final(self).node() == old(self).node(),
            r.wall_ms == final(self).last_wall_ms(),
            r.counter == final(self).counter(),
            r.node_id.name() == final(self).node(),
            (final(self).last_wall_ms() > old(self).last_wall_ms() && final(self).counter() == 0) || (
            final(self).last_wall_ms() == old(self).last_wall_ms() && final(self).counter() == old(self).counter() + 1),
            hlc_lt(old(self).current(r.node_id), r),
    {
        let wall_ms = now_millis() as u64;
        self.tick(wall_ms)
    }

    /// The local timestamp after receiving `remote`, given the wall-clock
    /// reading `wall_ms`: causally after both `remote` and the previous local
    /// state.
    pub fn observe(&mut self, remote: &HlcTimestamp, wall_ms: u64) -> (r: HlcTimestamp)
        requires
            (wall_ms > old(self).last_wall_ms() && wall_ms > remote.wall_ms)
                || (remote.wall_ms > old(self).last_wall_ms() && remote.counter < u32::MAX)
                || (old(self).last_wall_ms() > remote.wall_ms && old(self).counter() < u32::MAX)
                || (old(self).last_wall_ms() == remote.wall_ms && old(self).counter() < u32::MAX && remote.counter < u32::MAX),
        ensures
            final(self).node() == old(self).node(),
            (wall_ms > old(self).last_wall_ms() && wall_ms > remote.wall_ms) ==> final(self).last_wall_ms() == wall_ms
                && final(self).counter() == 0,
            !(wall_ms > old(self).last_wall_ms() && wall_ms > remote.wall_ms) && remote.wall_ms > old(self).last_wall_ms()
                ==> final(self).last_wall_ms() == remote.wall_ms && final(self).counter() == remote.counter + 1,
            !(wall_ms > old(self).last_wall_ms() && wall_ms > remote.wall_ms) && old(self).last_wall_ms() > remote.wall_ms
                ==> final(self).last_wall_ms() == old(self).last_wall_ms() && final(self).counter() == old(self).counter() + 1,
            !(wall_ms > old(self).last_wall_ms() && wall_ms > remote.wall_ms) && old(self).last_wall_ms() == remote.wall_ms
                ==> final(self).last_wall_ms() == remote.wall_ms && final(self).counter() == (if old(self).counter() >= remote.counter { old(self).counter() } else { remote.counter }) + 1,
            r.wall_ms == final(self).last_wall_ms(),
            r.counter == final(self).counter(),
            r.node_id.name() == final(self).node(),
            hlc_lt(old(self).current(r.node_id), r),
            hlc_lt(*remote, r),
    {
        if wall_ms > self.last_wall_ms && wall_ms > remote.wall_ms {
            self.last_wall_ms = wall_ms;
            self.counter = 0;
        } else if remote.wall_ms > self.last_wall_ms {
            self.last_wall_ms = remote.wall_ms;
            self.counter = remote.counter + 1;
        } else if self.last_wall_ms > remote.wall_ms {
            self.counter = self.counter + 1;
        } else {
            let m = if self.counter >= remote.counter { self.counter } else { remote.counter };
            self.counter = m + 1;
        }
        self.stamp()
    }

    /// Receives a remote timestamp at the current wall-clock time.
    pub fn receive(&mut self, remote: &HlcTimestamp) -> (r: HlcTimestamp)
        requires
            old(self).counter() < u32::MAX,
            remote.counter < u32::MAX,
        ensures
            final(self).node() == old(self).node(),
            r.wall_ms == final(self).last_wall_ms(),
            r.counter == final(self).counter(),
            r.node_id.name() == final(self).node(),
            hlc_lt(old(self).current(r.node_id), r),
            hlc_lt(*remote, r),
    {
        let wall_ms = now_millis() as u64;
        self.observe(remote, wall_ms)
    }
}

} // verus!
