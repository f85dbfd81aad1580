//! A partitioned property-graph store with an attached vector index: the
//! data model, the relation-name rule, the batched neighbor resolution, the
//! partition filters and the shaping of engine results, each with its
//! contract. The engine itself is reached by the caller, which hands the
//! engine's answers to these functions as plain values.

pub mod model;
pub mod relation;
pub mod records;
pub mod neighbors;
pub mod partition;
pub mod search;
