//! Typed entities joined by directed, sortable edges: the edge key codec,
//! the edge query engine, edge reconciliation, and a transactional store.
use vstd::prelude::*;

pub mod codec;
pub mod edge_provider;
pub mod entity;
pub mod query_edge;
pub mod records;
pub mod sql;
pub mod store;

pub use edge_provider::{
    DraftError, EdgeDraft, EdgeProvider, EdgeValue, EntWithEdges, NullEdgeDraft, NullEdgeProvider,
};
pub use entity::{AnyEnt, Ent, EntExt};
pub use query_edge::{Edge, EdgeCursor, EdgeQuery, QueryEdge, SortOrder};
pub use store::{MemStore, MemTxn, Transactional};

verus! {

/// Unique identifier for an entity.
pub type Id = u64;

/// Errors of store operations.
#[derive(Debug)]
pub enum DatabaseError {
    /// No id is left to give to a new entity.
    EntCapacityReached,
    /// An entity's draft edges were refused.
    Draft(Box<DraftError>),
    /// An entity could not be marked as updated.
    Mutation(EntMutationError),
    /// The storage engine failed.
    Other(String),
}

/// Error of an entity mutation.
#[derive(Debug)]
pub enum EntMutationError {
    /// The version could not be advanced.
    Other(String),
}

} // verus!
