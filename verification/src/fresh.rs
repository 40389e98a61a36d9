//! Values that outside crates make fresh: time-ordered UUIDs and empty JSON
//! objects.

use vstd::prelude::*;

verus! {

/// A fresh time-ordered UUID (`uuid::Uuid::now_v7`), as its 128-bit value.
/// Nothing is promised of it: it is made from the clock and random bits.
#[verifier::external_body]
pub(crate) fn fresh_uuid_v7() -> u128 {
    uuid::Uuid::now_v7().as_u128()
}

/// An empty JSON object (`serde_json::Value::Object` of a new map).
/// Nothing can be stated of it here: a JSON value is opaque to the proofs.
#[verifier::external_body]
pub(crate) fn empty_json_object() -> serde_json::Value {
    serde_json::Value::Object(serde_json::Map::new())
}

} // verus!
