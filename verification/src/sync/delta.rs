//! Delta envelopes, the unit of replication between nodes, and the sync
//! status a node reports.

use vstd::prelude::*;
use crate::fresh::fresh_uuid_v7;
use crate::sync::merkle::DeltaResourceType;
use crate::sync::node::NodeId;
use crate::sync::vector_clock::VectorClock;
use crate::time::UtcTime;

verus! {

/// A change to one field of one resource, with the field's CRDT state.
#[derive(Debug)]
pub struct DeltaOp {
    pub resource_type: DeltaResourceType,
    pub resource_id: u128,
    /// The changed field, such as `name` or `aliases`.
    pub field: String,
    /// The field's serialised CRDT state.
    pub crdt_state: serde_json::Value,
}

/// A batch of changes a node sends to its peers, with the causal context
/// it was produced in.
#[derive(Debug)]
pub struct DeltaEnvelope {
    pub id: u128,
    pub source_node: NodeId,
    pub vector_clock: VectorClock,
    pub deltas: Vec<DeltaOp>,
    pub created_at: UtcTime,
}

impl DeltaEnvelope {
    /// An envelope with id `fresh_id`, made at `now`.
    pub fn new_with(source_node: NodeId, vector_clock: VectorClock, deltas: Vec<DeltaOp>, fresh_id: u128, now: UtcTime) -> (r: DeltaEnvelope)
        ensures
            r.id == fresh_id,
            r.source_node == source_node,
            r.vector_clock == vector_clock,
            r.deltas == deltas,
            r.created_at == now,
    {
        DeltaEnvelope { id: fresh_id, source_node, vector_clock, deltas, created_at: now }
    }

    /// An envelope with a fresh UUIDv7, made now.
    pub fn new(source_node: NodeId, vector_clock: VectorClock, deltas: Vec<DeltaOp>) -> (r: DeltaEnvelope)
        ensures
            r.source_node == source_node,
            r.vector_clock == vector_clock,
            r.deltas == deltas,
    {
        let id = fresh_uuid_v7();
        DeltaEnvelope::new_with(source_node, vector_clock, deltas, id, crate::time::now())
    }

    /// Number of changes carried.
    pub fn delta_count(&self) -> (r: usize)
        ensures
            r == self.deltas@.len(),
    {
        self.deltas.len()
    }
}

/// The replication state a node reports.
#[derive(Debug)]
pub struct SyncStatus {
    pub node_id: NodeId,
    pub vector_clock: VectorClock,
    pub known_peers: Vec<NodeId>,
    pub deltas_produced: u64,
    pub deltas_received: u64,
    pub conflicts_resolved: u64,
    /// Last successful exchange with each peer, in the peers' order.
    pub last_sync: Vec<(NodeId, UtcTime)>,
    pub enabled: bool,
}

impl SyncStatus {
    /// The status of a standalone node with replication switched off.
    pub fn disabled() -> (r: SyncStatus)
        ensures
            r.node_id.name() == "standalone"@,
            r.vector_clock.wf(),
            r.vector_clock@ == Map::<Seq<char>, u64>::empty(),
            r.known_peers@.len() == 0,
            r.deltas_produced == 0,
            r.deltas_received == 0,
            r.conflicts_resolved == 0,
            r.last_sync@.len() == 0,
            !r.enabled,
    {
        SyncStatus {
            node_id: NodeId::new("standalone"),
            vector_clock: VectorClock::new(),
            known_peers: Vec::new(),
            deltas_produced: 0,
            deltas_received: 0,
            conflicts_resolved: 0,
            last_sync: Vec::new(),
            enabled: false,
        }
    }
}

} // verus!
