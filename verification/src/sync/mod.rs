//! Delta consensus: CRDT primitives, vector clocks, hybrid logical clocks
//! and Merkle digests for eventual consistency across nodes.

pub mod node;
pub mod counts;
pub mod vector_clock;
pub mod gcounter;
pub mod laws;
pub mod lww;
pub mod orset;
pub mod hlc;
pub mod merkle;
pub mod delta;
