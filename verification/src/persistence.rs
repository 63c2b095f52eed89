//! Entries of the persisted index, with their access statistics.
use vstd::prelude::*;
use std::sync::Arc;
use std::sync::atomic::AtomicU64;
use std::sync::atomic::Ordering;
use crate::clock::{unix_time_secs, secs_as_i64};

verus! {

/// The element an index entry points to.
#[derive(Debug, Clone, Copy, PartialEq, Eq, Structural)]
pub enum IndexEntryType {
    Vertex(i64),
    Edge(i64),
}

/// An index entry: the element it points to, when it was created, and how often
/// and when it was last read (shared between clones of the entry).
#[derive(Debug, Clone)]
pub struct IndexEntry {
    pub entry_type: IndexEntryType,
    pub created_at: i64,
    pub access_count: Arc<AtomicU64>,
    pub last_accessed: Arc<AtomicU64>,
}

impl IndexEntry {
    /// An entry for the vertex `vertex_id`, created now, never read.
    pub fn new_vertex(vertex_id: i64) -> (r: Self)
        ensures
            r.entry_type == IndexEntryType::Vertex(vertex_id),
    {
        let now = unix_time_secs();
        IndexEntry {
            entry_type: IndexEntryType::Vertex(vertex_id),
            created_at: secs_as_i64(now),
            access_count: Arc::new(AtomicU64::new(0)),
            last_accessed: Arc::new(AtomicU64::new(now)),
        }
    }

    /// An entry for the edge `edge_id`, created now, never read.
    pub fn new_edge(edge_id: i64) -> (r: Self)
        ensures
            r.entry_type == IndexEntryType::Edge(edge_id),
    {
        let now = unix_time_secs();
        IndexEntry {
            entry_type: IndexEntryType::Edge(edge_id),
            created_at: secs_as_i64(now),
            access_count: Arc::new(AtomicU64::new(0)),
            last_accessed: Arc::new(AtomicU64::new(now)),
        }
    }

    /// Records a read now: stores the time and counts the read.
    pub fn touch(&self) {
        let now = unix_time_secs();
        self.last_accessed.store(now, Ordering::Relaxed);
        self.access_count.fetch_add(1, Ordering::Relaxed);
    }

    /// Whether the entry points to a vertex.
    pub fn is_vertex(&self) -> (r: bool)
        ensures
            r == self.entry_type is Vertex,
    {
        match self.entry_type {
            IndexEntryType::Vertex(_) => true,
            IndexEntryType::Edge(_) => false,
        }
    }

    /// Whether the entry points to an edge.
    pub fn is_edge(&self) -> (r: bool)
        ensures
            r == self.entry_type is Edge,
    {
        match self.entry_type {
            IndexEntryType::Vertex(_) => false,
            IndexEntryType::Edge(_) => true,
        }
    }

    /// The id of the element the entry points to.
    pub fn get_id(&self) -> (r: i64)
        ensures
            r == match self.entry_type {
                IndexEntryType::Vertex(id) => id,
                IndexEntryType::Edge(id) => id,
            },
    {
        match self.entry_type {
            IndexEntryType::Vertex(id) => id,
            IndexEntryType::Edge(id) => id,
        }
    }
}

} // verus!
