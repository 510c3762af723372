//! Identifiers for chunks, vector points, datasets, users and collections.
//!
//! Each id is a plain 128-bit value. Fresh values are drawn from a random
//! generator; nothing is assumed of a freshly drawn value, so every caller
//! that needs a fresh id to be unused checks that against its own state.

use vstd::prelude::*;

verus! {

/// Identity of a chunk.
#[derive(Clone, Copy, PartialEq, Eq, Structural, Debug)]
pub struct ChunkId {
    pub value: u128,
}

/// Identity of a vector point in the vector index.
#[derive(Clone, Copy, PartialEq, Eq, Structural, Debug)]
pub struct PointId {
    pub value: u128,
}

/// Identity of a dataset (the owning partition of a chunk).
#[derive(Clone, Copy, PartialEq, Eq, Structural, Debug)]
pub struct DatasetId {
    pub value: u128,
}

/// Identity of a user (the author of a chunk).
#[derive(Clone, Copy, PartialEq, Eq, Structural, Debug)]
pub struct UserId {
    pub value: u128,
}

/// Identity of a chunk collection.
#[derive(Clone, Copy, PartialEq, Eq, Structural, Debug)]
pub struct CollectionId {
    pub value: u128,
}

/// Relies on uuid::Uuid::new_v4: a randomly generated identifier value.
/// The result is random, so nothing is promised of it.
#[verifier::external_body]
fn fresh_id_value() -> u128 {
    uuid::Uuid::new_v4().as_u128()
}

impl PointId {
    /// A randomly drawn point id. Callers that need it unused in their own
    /// state must check that themselves.
    pub fn fresh() -> PointId {
        PointId { value: fresh_id_value() }
    }
}

impl ChunkId {
    /// A randomly drawn chunk id. Callers that need it unused in their own
    /// state must check that themselves.
    pub fn fresh() -> ChunkId {
        ChunkId { value: fresh_id_value() }
    }
}

} // verus!
