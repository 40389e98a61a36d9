//! Verified core of the Mnemo memory engine: validation rules, access-control
//! orderings, CRDT primitives for multi-node synchronisation, Merkle proofs
//! for identity updates and context assembly.

pub mod text;
pub mod models;
pub mod time;
pub mod score;
pub mod sync;
pub mod digest;
pub mod encryption;
pub mod error;
pub mod traits;
mod fresh;

pub use error::MnemoError;
