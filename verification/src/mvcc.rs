//! Multi-version visibility of index entries, and index maintenance statistics.
use vstd::prelude::*;

verus! {

/// A logical timestamp of the multi-version index.
pub type Timestamp = u32;

/// The timestamp that marks "no valid timestamp".
pub const INVALID_TIMESTAMP: Timestamp = 0xffff_ffffu32;

/// The largest valid timestamp; writes without a transaction use it.
pub const MAX_TIMESTAMP: Timestamp = 0xffff_fffeu32;

/// The lifetime of one index entry: created at `created_ts`, deleted at `deleted_ts`
/// if it has been deleted.
#[derive(Debug, Clone, Copy, PartialEq, Eq, Structural)]
pub struct IndexEntry {
    pub created_ts: Timestamp,
    pub deleted_ts: Option<Timestamp>,
}

/// An entry is visible to a reader at `read_ts` when it was created no later than
/// `read_ts` and not deleted at or before it.
pub open spec fn visible_at(e: IndexEntry, read_ts: Timestamp) -> bool {
    &&& e.created_ts <= read_ts
    &&& match e.deleted_ts {
        None => true,
        Some(d) => d > read_ts,
    }
}

impl IndexEntry {
    /// A live entry created at `created_ts`.
    pub fn new(created_ts: Timestamp) -> (r: Self)
        ensures
            r == (IndexEntry { created_ts, deleted_ts: None }),
    {
        IndexEntry { created_ts, deleted_ts: None }
    }

    /// The same entry, deleted at `deleted_ts`.
    pub fn with_deleted(self, deleted_ts: Timestamp) -> (r: Self)
        ensures
            r == (IndexEntry { deleted_ts: Some(deleted_ts), ..self }),
    {
        let mut e = self;
        e.deleted_ts = Some(deleted_ts);
        e
    }

    /// Whether a reader at `read_ts` sees the entry.
    pub fn is_visible_at(&self, read_ts: Timestamp) -> (r: bool)
        ensures
            r == visible_at(*self, read_ts),
    {
        self.created_ts <= read_ts && match self.deleted_ts {
            None => true,
            Some(d) => d > read_ts,
        }
    }

    /// Whether the entry has been deleted.
    pub fn is_deleted(&self) -> (r: bool)
        ensures
            r == self.deleted_ts is Some,
    {
        self.deleted_ts.is_some()
    }

    /// Deletes the entry at `deleted_ts`.
    pub fn mark_deleted(&mut self, deleted_ts: Timestamp)
        ensures
            *final(self) == (IndexEntry { deleted_ts: Some(deleted_ts), ..*old(self) }),
    {
        self.deleted_ts = Some(deleted_ts);
    }
}

impl Default for IndexEntry {
    fn default() -> (r: Self)
        ensures
            r == (IndexEntry { created_ts: MAX_TIMESTAMP, deleted_ts: None }),
    {
        Self::new(MAX_TIMESTAMP)
    }
}

/// Visibility is monotone in time until the deletion: an entry visible at `t1` is
/// visible at every later `t2` before its deletion, and a deleted entry is invisible
/// to every reader at or after its deletion.
pub proof fn lemma_visibility_window(e: IndexEntry, t1: Timestamp, t2: Timestamp)
    ensures
        visible_at(e, t1) && t1 <= t2 && (e.deleted_ts matches Some(d) ==> t2 < d) ==> visible_at(e, t2),
        e.deleted_ts matches Some(d) && d <= t2 ==> !visible_at(e, t2),
        t2 < e.created_ts ==> !visible_at(e, t2),
{
}

/// Marking an entry deleted at `d` keeps it visible before `d` exactly as it was, and
/// hides it from `d` on.
pub proof fn lemma_mark_deleted_visibility(e: IndexEntry, d: Timestamp, t: Timestamp)
    requires
        e.deleted_ts is None,
    ensures
        visible_at(IndexEntry { deleted_ts: Some(d), ..e }, t) == (visible_at(e, t) && t < d),
{
}

/// Index entries counted while rebuilding.
#[derive(Debug, Clone, Copy, PartialEq, Eq, Structural, Default)]
pub struct RebuildStats {
    pub vertex_entries: usize,
    pub edge_entries: usize,
}

impl RebuildStats {
    /// All entries, vertex and edge.
    pub fn total_entries(&self) -> (r: usize)
        requires
            self.vertex_entries + self.edge_entries <= usize::MAX,
        ensures
            r == self.vertex_entries + self.edge_entries,
    {
        self.vertex_entries + self.edge_entries
    }

    /// Whether no entry was counted.
    pub fn is_empty(&self) -> (r: bool)
        ensures
            r == (self.vertex_entries == 0 && self.edge_entries == 0),
    {
        self.vertex_entries == 0 && self.edge_entries == 0
    }
}

/// Numbers of entries in the four index maps.
#[derive(Debug, Clone, Copy, PartialEq, Eq, Structural)]
pub struct IndexEntryCount {
    pub vertex_forward: usize,
    pub vertex_reverse: usize,
    pub edge_forward: usize,
    pub edge_reverse: usize,
}

/// Entries removed by garbage collection of deleted entries.
#[derive(Debug, Clone, Copy, PartialEq, Eq, Structural, Default)]
pub struct GcStats {
    pub vertex_entries_removed: usize,
    pub edge_entries_removed: usize,
}

impl GcStats {
    /// All removed entries, vertex and edge.
    pub fn total_removed(&self) -> (r: usize)
        requires
            self.vertex_entries_removed + self.edge_entries_removed <= usize::MAX,
        ensures
            r == self.vertex_entries_removed + self.edge_entries_removed,
    {
        self.vertex_entries_removed + self.edge_entries_removed
    }

    /// Whether nothing was removed.
    pub fn is_empty(&self) -> (r: bool)
        ensures
            r == (self.vertex_entries_removed == 0 && self.edge_entries_removed == 0),
    {
        self.vertex_entries_removed == 0 && self.edge_entries_removed == 0
    }
}

} // verus!
