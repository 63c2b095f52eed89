use std::sync::atomic::Ordering;
use std::sync::Arc;

use graphdb::degree::DegreeInfo;
use graphdb::events::{EventEmittingStorage, SyncStorage};
use graphdb::index_types::{CompositeIndexStats, IndexCategory, IndexStats};
use graphdb::mmap::{flush_range_len, mapped_range_end, opened_size, resize_copy_len, MmapFileError, MmapOptions};
use graphdb::mvcc::{GcStats, IndexEntry, RebuildStats, MAX_TIMESTAMP};
use graphdb::persistence;

#[test]
fn test_index_category() {
    assert_eq!(IndexCategory::Primary, IndexCategory::Primary);
    assert_ne!(IndexCategory::Primary, IndexCategory::Secondary);
}

#[test]
fn test_composite_stats() {
    let mut stats = CompositeIndexStats::new();
    stats.primary_indexes.push(IndexStats::new(IndexCategory::Primary, "edge_id".to_string(), 100, 1024, 0));
    stats.secondary_indexes.push(IndexStats::new(IndexCategory::Secondary, "vertex_name".to_string(), 50, 512, 5));

    assert_eq!(stats.total_entries(), 150);
    assert_eq!(stats.total_memory(), 1536);
    assert_eq!(stats.total_tombstones(), 5);
}

#[test]
fn empty_composite_stats_are_zero() {
    let stats = CompositeIndexStats::default();
    assert_eq!(stats.total_entries(), 0);
    assert_eq!(stats.total_memory(), 0);
    assert_eq!(stats.total_tombstones(), 0);
}

#[test]
fn test_degree_info() {
    let info = DegreeInfo::new(5, 3);
    assert_eq!(info.out_degree, 5);
    assert_eq!(info.in_degree, 3);
    assert_eq!(info.total_degree(), 8);
    assert!(!info.is_isolated());

    let isolated = DegreeInfo::default();
    assert!(isolated.is_isolated());
}

#[test]
fn degree_total_does_not_overflow() {
    let info = DegreeInfo::new(u32::MAX, u32::MAX);
    assert_eq!(info.total_degree(), 2 * (u32::MAX as u64));
}

#[test]
fn test_options() {
    let options = MmapOptions::new().with_initial_size(2048).create(true).huge_pages(true);

    assert_eq!(options.initial_size, 2048);
    assert!(options.create);
    assert!(options.huge_pages);
}

#[test]
fn default_options() {
    let o = MmapOptions::default();
    assert_eq!(o.initial_size, 0);
    assert!(o.create && o.read && o.write);
    assert!(!o.truncate && !o.huge_pages);
    let p = o.truncate(true).read(false).write(false);
    assert!(p.truncate && !p.read && !p.write);
}

#[test]
fn mapped_range_checks() {
    assert_eq!(mapped_range_end(10, 5, 100).unwrap(), 15);
    assert_eq!(mapped_range_end(95, 5, 100).unwrap(), 100);
    match mapped_range_end(90, 20, 100) {
        Err(MmapFileError::InvalidOffset { offset, size }) => {
            assert_eq!(offset, 90);
            assert_eq!(size, 100);
        }
        other => panic!("unexpected {:?}", other),
    }
    assert!(mapped_range_end(usize::MAX, 2, 100).is_err());
    assert_eq!(flush_range_len(10, 200, 100), 90);
    assert_eq!(flush_range_len(10, 20, 100), 20);
    assert_eq!(resize_copy_len(100, 200), 100);
    assert_eq!(resize_copy_len(300, 200), 200);
    assert_eq!(opened_size(0, &MmapOptions::new().with_initial_size(64)), 64);
    assert_eq!(opened_size(10, &MmapOptions::new().with_initial_size(64)), 10);
}

#[test]
fn mvcc_entry_visibility() {
    let e = IndexEntry::new(5);
    assert!(!e.is_visible_at(4));
    assert!(e.is_visible_at(5));
    assert!(!e.is_deleted());
    let d = e.with_deleted(8);
    assert!(d.is_visible_at(7));
    assert!(!d.is_visible_at(8));
    assert!(d.is_deleted());
    let mut m = IndexEntry::new(1);
    m.mark_deleted(3);
    assert_eq!(m, IndexEntry { created_ts: 1, deleted_ts: Some(3) });
    assert_eq!(IndexEntry::default().created_ts, MAX_TIMESTAMP);
}

#[test]
fn maintenance_stats_totals() {
    let r = RebuildStats { vertex_entries: 3, edge_entries: 4 };
    assert_eq!(r.total_entries(), 7);
    assert!(!r.is_empty());
    let g = GcStats { vertex_entries_removed: 0, edge_entries_removed: 0 };
    assert_eq!(g.total_removed(), 0);
    assert!(g.is_empty());
}

#[test]
fn persisted_entry_kinds() {
    let v = persistence::IndexEntry::new_vertex(42);
    assert!(v.is_vertex());
    assert!(!v.is_edge());
    assert_eq!(v.get_id(), 42);
    assert_eq!(v.access_count.load(Ordering::Relaxed), 0);
    v.touch();
    v.touch();
    assert_eq!(v.access_count.load(Ordering::Relaxed), 2);
    let e = persistence::IndexEntry::new_edge(-3);
    assert!(e.is_edge());
    assert_eq!(e.get_id(), -3);
}

#[test]
fn storage_wrappers_toggle() {
    let mut s = EventEmittingStorage::new(5u32, Arc::new("hub"));
    assert!(!s.is_enabled());
    s.enable_events(true);
    assert!(s.is_enabled());
    *s.inner_mut() = 6;
    assert_eq!(*s.inner(), 6);

    let mut y: SyncStorage<u32, String> = SyncStorage::new(1);
    assert!(y.get_sync_manager().is_none());
    y.enable_sync(true);
    assert!(y.is_enabled());
    let z = SyncStorage::with_sync_manager(2u32, Arc::new("m".to_string()));
    assert_eq!(z.get_sync_manager().unwrap().as_str(), "m");
    assert_eq!(*z.inner(), 2);
}

use graphdb::degree::DegreeIndex;
use graphdb::index_types::PrimaryIndex;

#[test]
fn degree_index_test_basic_operations() {
    let mut index = DegreeIndex::new();

    index.insert_edge(100, 200);
    index.insert_edge(100, 300);
    index.insert_edge(200, 300);

    assert_eq!(index.out_degree(100), 2);
    assert_eq!(index.in_degree(100), 0);
    assert_eq!(index.out_degree(200), 1);
    assert_eq!(index.in_degree(200), 1);
    assert_eq!(index.out_degree(300), 0);
    assert_eq!(index.in_degree(300), 2);

    assert_eq!(index.total_out_edges(), 3);
    assert_eq!(index.total_in_edges(), 3);
}

#[test]
fn degree_index_test_remove_edge() {
    let mut index = DegreeIndex::new();

    index.insert_edge(100, 200);
    index.insert_edge(100, 300);

    assert_eq!(index.out_degree(100), 2);

    index.remove_edge(100, 200);

    assert_eq!(index.out_degree(100), 1);
    assert_eq!(index.in_degree(200), 0);
}

#[test]
fn test_set_degree() {
    let mut index = DegreeIndex::new();

    index.set_degree(100, 5, 3);

    let info = index.get(100).expect("Should have degree info");
    assert_eq!(info.out_degree, 5);
    assert_eq!(info.in_degree, 3);

    index.set_degree(100, 10, 6);

    let info = index.get(100).expect("Should have degree info");
    assert_eq!(info.out_degree, 10);
    assert_eq!(info.in_degree, 6);
}

#[test]
fn test_vertices_filtering() {
    let mut index = DegreeIndex::new();

    index.set_degree(100, 5, 0);
    index.set_degree(200, 3, 3);
    index.set_degree(300, 0, 5);

    let high_out = index.vertices_with_out_degree_at_least(4);
    assert_eq!(high_out.len(), 1);
    assert!(high_out.contains(&100));

    let high_in = index.vertices_with_in_degree_at_least(4);
    assert_eq!(high_in.len(), 1);
    assert!(high_in.contains(&300));
}

#[test]
fn test_remove_vertex() {
    let mut index = DegreeIndex::new();

    index.set_degree(100, 5, 3);
    assert_eq!(index.len(), 1);

    let removed = index.remove_vertex(100).expect("Should remove vertex");
    assert_eq!(removed.out_degree, 5);
    assert_eq!(removed.in_degree, 3);

    assert_eq!(index.len(), 0);
    assert!(index.get(100).is_none());
}

#[test]
fn degree_index_test_clear() {
    let mut index = DegreeIndex::new();

    index.insert_edge(100, 200);
    index.insert_edge(200, 300);

    assert_eq!(index.len(), 3);

    index.clear();

    assert_eq!(index.len(), 0);
    assert!(index.is_empty());
    assert_eq!(index.total_out_edges(), 0);
    assert_eq!(index.total_in_edges(), 0);
}

#[test]
fn degree_totals_follow_set_and_remove() {
    let mut index = DegreeIndex::with_capacity(16);
    index.set_degree(1, 4, 2);
    index.set_degree(2, 1, 1);
    assert_eq!((index.total_out_edges(), index.total_in_edges()), (5, 3));
    index.set_degree(1, 1, 7);
    assert_eq!((index.total_out_edges(), index.total_in_edges()), (2, 8));
    assert_eq!(index.total_edges(), 10);
    index.remove_vertex(2);
    assert_eq!((index.total_out_edges(), index.total_in_edges()), (1, 7));
    assert!(index.remove_vertex(9).is_none());
    assert_eq!(index.total_degree(1), 8);
    assert_eq!(index.total_degree(9), 0);
}

#[test]
fn degree_decrement_at_zero_changes_nothing() {
    let mut index = DegreeIndex::default();
    assert_eq!(index.decrement_out_degree(5), None);
    index.set_degree(5, 0, 1);
    assert_eq!(index.decrement_out_degree(5), None);
    assert_eq!(index.decrement_in_degree(5), Some(0));
    assert_eq!(index.total_in_edges(), 0);
    assert_eq!(index.increment_out_degree(5), 1);
    assert_eq!(index.increment_in_degree(6), 1);
    assert_eq!(index.isolated_vertices(), Vec::<u64>::new());
}

#[test]
fn degree_iteration_and_isolated() {
    let mut index = DegreeIndex::new();
    index.set_degree(1, 0, 0);
    index.set_degree(2, 1, 0);
    let mut all = index.iter();
    all.sort_by_key(|(v, _)| *v);
    assert_eq!(all.len(), 2);
    assert_eq!(all[0].0, 1);
    assert_eq!(all[1].1, DegreeInfo::new(1, 0));
    assert_eq!(index.isolated_vertices(), vec![1]);
}

#[test]
fn degree_index_as_primary_index() {
    let mut index = DegreeIndex::new();
    index.insert_edge(1, 2);
    assert_eq!(index.index_name(), "degree_index");
    assert_eq!(index.entry_count(), 2);
    assert_eq!(index.category(), IndexCategory::Primary);
    assert_eq!(index.memory_usage(), 2 * (8 + std::mem::size_of::<DegreeInfo>()));
    PrimaryIndex::clear(&mut index);
    assert!(index.is_empty());
    assert_eq!(index.total_out_edges(), 0);
}
