//! Classification of the indexes kept by the graph store, and their statistics.
//!
//! Primary indexes follow the compressed-sparse-row layout (edge ids, degrees);
//! secondary indexes are built on property values.
use vstd::prelude::*;
use crate::error::StorageError;
use crate::mvcc::Timestamp;

verus! {

/// Vertex ids in the compressed-sparse-row layout.
pub type VertexId = u64;

/// Edge ids in the compressed-sparse-row layout.
pub type EdgeId = u64;

/// Offsets of edge properties.
pub type PropOffset = u32;

/// Whether an index is tied to the CSR layout (primary) or built on property values (secondary).
#[derive(Debug, Clone, Copy, PartialEq, Eq, Structural, Hash)]
pub enum IndexCategory {
    Primary,
    Secondary,
}

/// The primary indexes.
#[derive(Debug, Clone, Copy, PartialEq, Eq, Structural, Hash)]
pub enum PrimaryIndexType {
    EdgeId,
    Degree,
}

/// The secondary indexes.
#[derive(Debug, Clone, Copy, PartialEq, Eq, Structural, Hash)]
pub enum SecondaryIndexType {
    VertexProperty,
    EdgeProperty,
}

/// An index tied to the CSR layout. Implemented by the primary indexes.
pub trait PrimaryIndex {
    fn category(&self) -> (r: IndexCategory)
        ensures
            r == IndexCategory::Primary,
    {
        IndexCategory::Primary
    }

    fn index_name(&self) -> &str;

    fn entry_count(&self) -> usize;

    /// Empties the index. It takes the index mutably, as the index changes.
    fn clear(&mut self);

    fn memory_usage(&self) -> usize;
}

/// An index on property values. Implemented by the secondary indexes.
pub trait SecondaryIndex {
    fn category(&self) -> (r: IndexCategory)
        ensures
            r == IndexCategory::Secondary,
    {
        IndexCategory::Secondary
    }

    fn index_name(&self) -> &str;

    fn space_id(&self) -> u64;

    fn entry_count(&self) -> usize;

    fn clear(&self);

    fn memory_usage(&self) -> usize;

    fn gc_tombstones(&self, safe_ts: Timestamp) -> Result<usize, StorageError>;
}

/// Which key family of which space a key belongs to.
#[derive(Debug, Clone, Copy, PartialEq, Eq, Structural)]
pub struct IndexKey {
    pub space_id: u64,
    pub index_type: IndexKeyType,
}

/// The four key families.
#[derive(Debug, Clone, Copy, PartialEq, Eq, Structural)]
pub enum IndexKeyType {
    VertexForward,
    VertexReverse,
    EdgeForward,
    EdgeReverse,
}

/// Statistics of one index.
#[derive(Debug)]
pub struct IndexStats {
    pub category: IndexCategory,
    pub name: String,
    pub entry_count: usize,
    pub memory_usage: usize,
    pub tombstone_count: usize,
}

impl IndexStats {
    pub fn new(
        category: IndexCategory,
        name: String,
        entry_count: usize,
        memory_usage: usize,
        tombstone_count: usize,
    ) -> (r: Self)
        ensures
            r.category == category,
            r.name == name,
            r.entry_count == entry_count,
            r.memory_usage == memory_usage,
            r.tombstone_count == tombstone_count,
    {
        IndexStats { category, name, entry_count, memory_usage, tombstone_count }
    }
}

/// The sum of the entry counts.
pub open spec fn sum_entries(s: Seq<IndexStats>) -> int
    decreases s.len(),
{
    if s.len() == 0 {
        0
    } else {
        sum_entries(s.drop_last()) + s.last().entry_count
    }
}

/// The sum of the memory usages.
pub open spec fn sum_memory(s: Seq<IndexStats>) -> int
    decreases s.len(),
{
    if s.len() == 0 {
        0
    } else {
        sum_memory(s.drop_last()) + s.last().memory_usage
    }
}

/// The sum of the tombstone counts.
pub open spec fn sum_tombstones(s: Seq<IndexStats>) -> int
    decreases s.len(),
{
    if s.len() == 0 {
        0
    } else {
        sum_tombstones(s.drop_last()) + s.last().tombstone_count
    }
}

proof fn lemma_sums_nonneg_monotone(s: Seq<IndexStats>, i: int)
    requires
        0 <= i <= s.len(),
    ensures
        0 <= sum_entries(s.subrange(0, i)) <= sum_entries(s),
        0 <= sum_memory(s.subrange(0, i)) <= sum_memory(s),
        0 <= sum_tombstones(s.subrange(0, i)) <= sum_tombstones(s),
    decreases s.len() - i,
{
    if i < s.len() {
        lemma_sums_nonneg_monotone(s, i + 1);
        assert(s.subrange(0, i + 1).drop_last() =~= s.subrange(0, i));
        lemma_sums_nonneg(s.subrange(0, i));
    } else {
        assert(s.subrange(0, i) =~= s);
        lemma_sums_nonneg(s);
    }
}

proof fn lemma_sums_nonneg(s: Seq<IndexStats>)
    ensures
        0 <= sum_entries(s),
        0 <= sum_memory(s),
        0 <= sum_tombstones(s),
    decreases s.len(),
{
    if s.len() > 0 {
        lemma_sums_nonneg(s.drop_last());
    }
}

/// What a statistic adds up: entry counts, memory usages or tombstone counts.
pub enum StatKind {
    Entries,
    Memory,
    Tombstones,
}

pub open spec fn sum_of(kind: StatKind, s: Seq<IndexStats>) -> int {
    match kind {
        StatKind::Entries => sum_entries(s),
        StatKind::Memory => sum_memory(s),
        StatKind::Tombstones => sum_tombstones(s),
    }
}

fn add_up(kind: &StatKind, s: &Vec<IndexStats>) -> (r: usize)
    requires
        sum_of(*kind, s@) <= usize::MAX,
    ensures
        r == sum_of(*kind, s@),
{
    let mut total: usize = 0;
    let mut i: usize = 0;
    while i < s.len()
        invariant
            i <= s@.len(),
            sum_of(*kind, s@) <= usize::MAX,
            total == sum_of(*kind, s@.subrange(0, i as int)),
        decreases s@.len() - i,
    {
        proof {
            assert(s@.subrange(0, i as int + 1).drop_last() =~= s@.subrange(0, i as int));
            lemma_sums_nonneg_monotone(s@, i as int + 1);
        }
        let x = match kind {
            StatKind::Entries => s[i].entry_count,
            StatKind::Memory => s[i].memory_usage,
            StatKind::Tombstones => s[i].tombstone_count,
        };
        total = total + x;
        i = i + 1;
    }
    assert(s@.subrange(0, i as int) =~= s@);
    total
}

/// The statistics of all primary and secondary indexes.
#[derive(Debug)]
pub struct CompositeIndexStats {
    pub primary_indexes: Vec<IndexStats>,
    pub secondary_indexes: Vec<IndexStats>,
}

impl Default for CompositeIndexStats {
    fn default() -> (r: Self)
        ensures
            r.primary_indexes@.len() == 0,
            r.secondary_indexes@.len() == 0,
    {
        CompositeIndexStats { primary_indexes: Vec::new(), secondary_indexes: Vec::new() }
    }
}

impl CompositeIndexStats {
    /// No statistics yet.
    pub fn new() -> (r: Self)
        ensures
            r.primary_indexes@.len() == 0,
            r.secondary_indexes@.len() == 0,
    {
        Self::default()
    }

    /// The entries of all indexes. Adding past `usize::MAX` overflows, as in the
    /// standard library's sum; such inputs are left out.
    pub fn total_entries(&self) -> (r: usize)
        requires
            sum_entries(self.primary_indexes@) + sum_entries(self.secondary_indexes@) <= usize::MAX,
        ensures
            r == sum_entries(self.primary_indexes@) + sum_entries(self.secondary_indexes@),
    {
        proof {
            lemma_sums_nonneg(self.primary_indexes@);
            lemma_sums_nonneg(self.secondary_indexes@);
        }
        add_up(&StatKind::Entries, &self.primary_indexes) + add_up(&StatKind::Entries, &self.secondary_indexes)
    }

    /// The memory used by all indexes.
    pub fn total_memory(&self) -> (r: usize)
        requires
            sum_memory(self.primary_indexes@) + sum_memory(self.secondary_indexes@) <= usize::MAX,
        ensures
            r == sum_memory(self.primary_indexes@) + sum_memory(self.secondary_indexes@),
    {
        proof {
            lemma_sums_nonneg(self.primary_indexes@);
            lemma_sums_nonneg(self.secondary_indexes@);
        }
        add_up(&StatKind::Memory, &self.primary_indexes) + add_up(&StatKind::Memory, &self.secondary_indexes)
    }

    /// The deleted entries still held by all indexes.
    pub fn total_tombstones(&self) -> (r: usize)
        requires
            sum_tombstones(self.primary_indexes@) + sum_tombstones(self.secondary_indexes@) <= usize::MAX,
        ensures
            r == sum_tombstones(self.primary_indexes@) + sum_tombstones(self.secondary_indexes@),
    {
        proof {
            lemma_sums_nonneg(self.primary_indexes@);
            lemma_sums_nonneg(self.secondary_indexes@);
        }
        add_up(&StatKind::Tombstones, &self.primary_indexes) + add_up(
            &StatKind::Tombstones,
            &self.secondary_indexes,
        )
    }
}

} // verus!
