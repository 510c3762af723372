//! Core of a chunk ingestion and retrieval service: ingest-time
//! near-duplicate detection, duplicate-group maintenance with re-rooting on
//! delete, query parsing, hybrid (semantic + lexical) ranking with score
//! fusion, recency bias and pagination, and recommendations.
//!
//! The vector index, lexical index and embedding model are outside
//! collaborators: their answers (nearest neighbours, candidate lists,
//! re-ranker scores) enter as plain values, and the decisions taken on them
//! are verified here. Similarity scores and weights are fixed-point
//! integers; the scale is given in [`scores`].

use vstd::prelude::*;

pub mod dataset;
pub mod faults;
pub mod generate;
pub mod ids;
pub mod model;
pub mod query;
pub mod ranker;
pub mod ranking;
pub mod recommend;
pub mod scores;
pub mod text;
pub mod time;

verus! {

} // verus!
