//! Verified core of a drink catalog with semantic similarity search.
//!
//! The library holds the logic between the services: the extraction of keys
//! and distances from a vector-index answer, deduplication, order restoration
//! after a batch lookup in the catalog store, and the lockstep pairing of
//! records with their distances.
use vstd::prelude::*;

pub mod categories;
pub mod model;
pub mod chroma_utils;
pub mod mongo_utils;
pub mod pipeline;
