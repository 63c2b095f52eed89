use bincode::config::standard;
use bincode::encode_to_vec;
use graphdb::compression::{CompressionConfig, CompressionType};
use graphdb::error::StorageError;
use graphdb::model::{Index, IndexConfig, IndexField, IndexType, Value};
use graphdb::mvcc::MAX_TIMESTAMP;
use graphdb::vertex_index::{IndexEstimate, VertexIndexManager};

fn ser_str(s: &str) -> Vec<u8> {
    encode_to_vec(s, standard()).unwrap()
}

fn ser_int(i: i64) -> Vec<u8> {
    encode_to_vec(i, standard()).unwrap()
}

fn create_test_index(name: &str, schema_name: &str) -> Index {
    Index::new(IndexConfig {
        id: 1,
        name: name.to_string(),
        space_id: 1,
        schema_name: schema_name.to_string(),
        fields: vec![IndexField::new("name".to_string(), Value::String("".to_string()), false)],
        properties: vec![],
        index_type: IndexType::TagIndex,
        is_unique: false,
        partial_condition: None,
    })
}

fn name_props(v: &str) -> Vec<(String, Vec<u8>)> {
    vec![("name".to_string(), ser_str(v))]
}

#[test]
fn vertex_index_manager_test_update_and_lookup_vertex_index() {
    let mut manager = VertexIndexManager::new();

    let space_id = 1u64;
    let vertex_id = ser_int(1);
    let index_name = "idx_person_name";
    let props = name_props("Alice");

    manager
        .update_vertex_indexes(space_id, &vertex_id, index_name, &props)
        .expect("Failed to update vertex indexes");

    let index = create_test_index(index_name, "person");

    let results = manager
        .lookup_tag_index(space_id, &index, &ser_str("Alice"))
        .expect("Failed to lookup tag index");
    assert_eq!(results.len(), 1);
    assert_eq!(results[0], vertex_id);

    let empty_results = manager
        .lookup_tag_index(space_id, &index, &ser_str("Bob"))
        .expect("Failed to lookup tag index");
    assert!(empty_results.is_empty());
}

#[test]
fn vertex_index_manager_test_delete_vertex_indexes() {
    let mut manager = VertexIndexManager::new();

    let space_id = 1u64;
    let vertex_id1 = ser_int(1);
    let vertex_id2 = ser_int(2);
    let index_name = "idx_person_name";

    let props1 = name_props("Alice");
    let props2 = name_props("Bob");

    manager
        .update_vertex_indexes(space_id, &vertex_id1, index_name, &props1)
        .expect("Failed to update vertex indexes");
    manager
        .update_vertex_indexes(space_id, &vertex_id2, index_name, &props2)
        .expect("Failed to update vertex indexes");

    let index = create_test_index(index_name, "person");

    let results1 = manager
        .lookup_tag_index(space_id, &index, &ser_str("Alice"))
        .expect("Failed to lookup tag index");
    assert_eq!(results1.len(), 1);

    let results2 = manager
        .lookup_tag_index(space_id, &index, &ser_str("Bob"))
        .expect("Failed to lookup tag index");
    assert_eq!(results2.len(), 1);

    manager
        .delete_vertex_indexes(space_id, &vertex_id1)
        .expect("Failed to delete vertex indexes");

    let results1_after = manager
        .lookup_tag_index(space_id, &index, &ser_str("Alice"))
        .expect("Failed to lookup tag index");
    assert!(results1_after.is_empty());

    let results2_after = manager
        .lookup_tag_index(space_id, &index, &ser_str("Bob"))
        .expect("Failed to lookup tag index");
    assert_eq!(results2_after.len(), 1);
}

#[test]
fn vertex_index_manager_test_multiple_properties_index() {
    let mut manager = VertexIndexManager::new();

    let space_id = 1u64;
    let vertex_id = ser_int(1);
    let index_name = "idx_person";

    let props = vec![("name".to_string(), ser_str("Alice")), ("age".to_string(), ser_int(30))];

    manager
        .update_vertex_indexes(space_id, &vertex_id, index_name, &props)
        .expect("Failed to update vertex indexes");

    let index = create_test_index(index_name, "person");

    let results_name = manager
        .lookup_tag_index(space_id, &index, &ser_str("Alice"))
        .expect("Failed to lookup tag index");
    assert_eq!(results_name.len(), 1);
    assert_eq!(results_name[0], vertex_id);

    let results_age = manager
        .lookup_tag_index(space_id, &index, &ser_int(30))
        .expect("Failed to lookup tag index");
    assert_eq!(results_age.len(), 1);
    assert_eq!(results_age[0], vertex_id);
}

#[test]
fn test_vertex_index_mvcc_visibility() {
    let mut manager = VertexIndexManager::new();
    let index = create_test_index("idx", "person");
    manager.update_vertex_indexes_mvcc(1, &ser_int(7), "idx", &name_props("Ann"), 10).unwrap();

    let before = manager.lookup_tag_index_mvcc(1, &index, &ser_str("Ann"), 9).unwrap();
    assert!(before.is_empty());
    let at = manager.lookup_tag_index_mvcc(1, &index, &ser_str("Ann"), 10).unwrap();
    assert_eq!(at, vec![ser_int(7)]);

    manager.delete_vertex_indexes_mvcc(1, &ser_int(7), 20).unwrap();
    let still = manager.lookup_tag_index_mvcc(1, &index, &ser_str("Ann"), 19).unwrap();
    assert_eq!(still, vec![ser_int(7)]);
    let gone = manager.lookup_tag_index_mvcc(1, &index, &ser_str("Ann"), 20).unwrap();
    assert!(gone.is_empty());

    // deleted entries stay until collected
    assert_eq!(manager.entry_count(), (1, 1));
    assert_eq!(manager.tombstone_count(), 2);
    assert_eq!(manager.gc_tombstones(20).unwrap(), 0);
    assert_eq!(manager.gc_tombstones(21).unwrap(), 2);
    assert_eq!(manager.entry_count(), (0, 0));
}

#[test]
fn test_vertex_index_other_space_not_seen() {
    let mut manager = VertexIndexManager::new();
    let index = create_test_index("idx", "person");
    manager.update_vertex_indexes(1, &ser_int(1), "idx", &name_props("Ann")).unwrap();
    let r = manager.lookup_tag_index(2, &index, &ser_str("Ann")).unwrap();
    assert!(r.is_empty());
    let r = manager.try_lookup_tag_index_mvcc(1, &index, &ser_str("Ann"), MAX_TIMESTAMP);
    assert_eq!(r.unwrap().unwrap(), vec![ser_int(1)]);
}

#[test]
fn test_vertex_index_delete_single() {
    let mut manager = VertexIndexManager::new();
    let index = create_test_index("idx", "person");
    manager.update_vertex_indexes(1, &ser_int(1), "idx", &name_props("Ann")).unwrap();
    manager.update_vertex_indexes(1, &ser_int(2), "idx", &name_props("Ann")).unwrap();
    assert_eq!(manager.lookup_tag_index(1, &index, &ser_str("Ann")).unwrap().len(), 2);
    manager.delete_vertex_index_single(1, &ser_int(1), "idx", &ser_str("Ann"), 5).unwrap();
    assert_eq!(manager.lookup_tag_index(1, &index, &ser_str("Ann")).unwrap(), vec![ser_int(2)]);
}

#[test]
fn test_vertex_index_range_lookup() {
    let mut manager = VertexIndexManager::new();
    let index = create_test_index("idx", "person");
    for (id, v) in [(1i64, 10i64), (2, 20), (3, 30)] {
        manager.update_vertex_indexes(1, &ser_int(id), "idx", &[("age".to_string(), ser_int(v))]).unwrap();
    }
    // bounds on the vertex id below and above every stored one
    let low: Vec<u8> = vec![];
    let high = vec![0xffu8; 16];
    let start = ser_int(10);
    let end = ser_int(30);
    let r = manager.lookup_tag_index_range(1, &index, &start, &end, &low, &high).unwrap();
    assert!(r.contains(&ser_int(1)));
    assert!(r.contains(&ser_int(2)));
    assert!(!r.contains(&ser_int(3)));
}

#[test]
fn test_vertex_index_estimate_and_scan() {
    let mut manager = VertexIndexManager::new();
    let index = create_test_index("idx", "person");
    manager.update_vertex_indexes(1, &ser_int(1), "idx", &name_props("Ann")).unwrap();
    manager.update_vertex_indexes(1, &ser_int(2), "idx", &name_props("Bob")).unwrap();
    manager.update_vertex_indexes(1, &ser_int(3), "other", &name_props("Cy")).unwrap();
    manager.delete_vertex_indexes(1, &ser_int(2)).unwrap();

    let est = manager.estimate_index_entries(1, "idx").unwrap();
    assert_eq!(est, IndexEstimate { total_entries: 2, visible_entries: 1, tombstone_entries: 1 });

    let scanned = manager.scan_index_entries(1, &index, 10).unwrap();
    assert_eq!(scanned, vec![(ser_str("Ann"), ser_int(1))]);

    manager.update_vertex_indexes(1, &ser_int(4), "idx", &name_props("Dee")).unwrap();
    let limited = manager.scan_index_entries(1, &index, 1).unwrap();
    assert_eq!(limited.len(), 1);
    assert!(manager.scan_index_entries(1, &index, 0).unwrap().is_empty());
}

#[test]
fn test_vertex_index_clear_tag_index() {
    let mut manager = VertexIndexManager::new();
    let index = create_test_index("idx", "person");
    let other = create_test_index("other", "person");
    manager.update_vertex_indexes(1, &ser_int(1), "idx", &name_props("Ann")).unwrap();
    manager.update_vertex_indexes(1, &ser_int(1), "other", &name_props("Ann")).unwrap();
    manager.clear_tag_index(1, "idx").unwrap();
    assert!(manager.lookup_tag_index(1, &index, &ser_str("Ann")).unwrap().is_empty());
    assert_eq!(manager.lookup_tag_index(1, &other, &ser_str("Ann")).unwrap().len(), 1);
    manager.clear_all().unwrap();
    assert_eq!(manager.entry_count(), (0, 0));
}

#[test]
fn test_vertex_index_delete_tag_indexes() {
    let mut manager = VertexIndexManager::new();
    manager.update_vertex_indexes(1, &ser_int(1), "person_name", &name_props("Ann")).unwrap();
    manager.update_vertex_indexes(1, &ser_int(1), "city_name", &name_props("Rome")).unwrap();
    assert_eq!(manager.entry_count(), (2, 2));
    manager.delete_tag_indexes(1, &ser_int(1), "person").unwrap();
    // reverse entries whose index name starts with the tag go; forward entries stay
    assert_eq!(manager.entry_count(), (2, 1));
}

#[test]
fn test_vertex_index_persist_roundtrip() {
    let mut manager = VertexIndexManager::new();
    let index = create_test_index("idx", "person");
    manager.update_vertex_indexes(1, &ser_int(1), "idx", &name_props("Ann")).unwrap();
    manager.update_vertex_indexes_mvcc(1, &ser_int(2), "idx", &name_props("Ann"), 5).unwrap();
    manager.delete_vertex_indexes_mvcc(1, &ser_int(2), 8).unwrap();

    let fwd = manager.forward_index_bytes();
    let rev = manager.reverse_index_bytes();

    let mut loaded = VertexIndexManager::new();
    loaded.load_forward_index(&fwd).unwrap();
    loaded.load_reverse_index(&rev).unwrap();
    assert_eq!(loaded.entry_count(), manager.entry_count());
    assert_eq!(loaded.tombstone_count(), manager.tombstone_count());
    assert_eq!(
        loaded.lookup_tag_index_mvcc(1, &index, &ser_str("Ann"), 6).unwrap(),
        manager.lookup_tag_index_mvcc(1, &index, &ser_str("Ann"), 6).unwrap()
    );
    assert_eq!(loaded.forward_index_bytes(), fwd);
}

#[test]
fn test_vertex_index_load_short_data() {
    let mut manager = VertexIndexManager::new();
    manager.update_vertex_indexes(1, &ser_int(1), "idx", &name_props("Ann")).unwrap();
    match manager.load_forward_index(&[1, 2, 3]) {
        Err(StorageError::DbError(m)) => assert_eq!(m, "failed to fill whole buffer"),
        other => panic!("unexpected {:?}", other),
    }
    assert_eq!(manager.entry_count(), (1, 1));

    // a count of one entry with nothing after it: the map is emptied, the read fails
    let data = 1u64.to_le_bytes();
    assert!(manager.load_forward_index(&data).is_err());
    assert_eq!(manager.entry_count(), (0, 1));
}

#[test]
fn test_vertex_index_with_prefix_compression() {
    let config = CompressionConfig::new().with_compression_type(CompressionType::Prefix);
    let mut manager = VertexIndexManager::with_compression(config);
    assert!(manager.is_compression_enabled());
    let index = create_test_index("idx_person_name", "person");
    let sample = graphdb::key_codec::IndexKeyCodec::build_vertex_index_key(
        1,
        "idx_person_name",
        &ser_str("Ann"),
        &ser_int(1),
    );
    manager.train_compression(&[sample.0.clone(), sample.0]).unwrap();
    manager.update_vertex_indexes(1, &ser_int(1), "idx_person_name", &name_props("Ann")).unwrap();
    assert_eq!(manager.entry_count(), (1, 1));
    // the stored key is compressed to a flag byte alone, which lies before the
    // uncompressed index prefix that the lookup scans from
    let r = manager.try_lookup_tag_index_mvcc(1, &index, &ser_str("Ann"), MAX_TIMESTAMP);
    assert_eq!(r.unwrap().unwrap(), Vec::<Vec<u8>>::new());
    assert!(!VertexIndexManager::new().is_compression_enabled());
}

#[test]
fn test_vertex_index_gc_incremental() {
    let mut manager = VertexIndexManager::new();
    for id in 1..=3i64 {
        manager.update_vertex_indexes_mvcc(1, &ser_int(id), "idx", &name_props("Ann"), 1).unwrap();
        manager.delete_vertex_indexes_mvcc(1, &ser_int(id), 2).unwrap();
    }
    assert_eq!(manager.entry_count(), (3, 3));
    // nothing is stale before the deletion time
    assert_eq!(manager.gc_tombstones_incremental(2, 10).unwrap(), 0);
    // a batch of two takes forward entries only
    assert_eq!(manager.gc_tombstones_incremental(3, 2).unwrap(), 2);
    assert_eq!(manager.entry_count(), (1, 3));
    // the rest of the batch goes to the reverse entries
    assert_eq!(manager.gc_tombstones_incremental(3, 3).unwrap(), 3);
    assert_eq!(manager.entry_count(), (0, 1));
    assert_eq!(manager.gc_tombstones_incremental(3, 0).unwrap(), 0);
    assert_eq!(manager.gc_tombstones_incremental(3, 5).unwrap(), 1);
    assert_eq!(manager.entry_count(), (0, 0));
}

#[test]
fn test_vertex_index_native_update_lookup_delete() {
    let mut manager = VertexIndexManager::new();
    let index = create_test_index("idx", "person");
    manager.update_vertex_indexes_native_mvcc(1, 42, "idx", &name_props("Ann"), 1).unwrap();
    manager.update_vertex_indexes_native_mvcc(1, 43, "idx", &name_props("Ann"), 5).unwrap();
    assert_eq!(manager.entry_count(), (2, 2));

    assert_eq!(manager.lookup_tag_index_native(1, &index, &ser_str("Ann")).unwrap(), vec![42, 43]);
    assert_eq!(manager.lookup_tag_index_native_mvcc(1, &index, &ser_str("Ann"), 4).unwrap(), vec![42]);
    assert!(manager.lookup_tag_index_native(1, &index, &ser_str("Bob")).unwrap().is_empty());
    assert_eq!(manager.try_lookup_tag_index_native_mvcc(1, &index, &ser_str("Ann"), 4), Some(vec![42]));

    manager.delete_vertex_indexes_native_mvcc(1, 42, 10).unwrap();
    assert_eq!(manager.lookup_tag_index_native_mvcc(1, &index, &ser_str("Ann"), 9).unwrap(), vec![42, 43]);
    assert_eq!(manager.lookup_tag_index_native_mvcc(1, &index, &ser_str("Ann"), 10).unwrap(), vec![43]);
    assert_eq!(manager.tombstone_count(), 2);

    manager.delete_vertex_indexes_native(1, 43).unwrap();
    assert_eq!(manager.tombstone_count(), 4);
    assert!(manager.lookup_tag_index_native(1, &index, &ser_str("Ann")).unwrap().is_empty());

    // entries written at MAX_TIMESTAMP are seen only there
    manager.update_vertex_indexes_native(1, 44, "idx", &name_props("Ann")).unwrap();
    assert_eq!(manager.lookup_tag_index_native(1, &index, &ser_str("Ann")).unwrap(), vec![44]);
    // before MAX_TIMESTAMP the entries of 43, deleted there, are still seen
    assert_eq!(manager.lookup_tag_index_native_mvcc(1, &index, &ser_str("Ann"), 100).unwrap(), vec![43]);
}

#[test]
fn test_vertex_index_native_range() {
    let mut manager = VertexIndexManager::new();
    let index = create_test_index("idx", "person");
    for (id, v) in [(1u64, 10i64), (2, 20), (3, 30)] {
        manager.update_vertex_indexes_native(1, id, "idx", &[("age".to_string(), ser_int(v))]).unwrap();
    }
    let r = manager.lookup_tag_index_range_native(1, &index, &ser_int(10), &ser_int(30)).unwrap();
    assert_eq!(r, vec![1, 2]);
    let r = manager.lookup_tag_index_range_native_mvcc(1, &index, &ser_int(20), &ser_int(31), MAX_TIMESTAMP).unwrap();
    assert_eq!(r, vec![2, 3]);
    let r = manager.lookup_tag_index_range_native_mvcc(1, &index, &ser_int(10), &ser_int(30), 0).unwrap();
    assert!(r.is_empty());
}

#[test]
fn test_vertex_index_composite() {
    let mut manager = VertexIndexManager::new();
    let ann30 = vec![ser_str("Ann"), ser_int(30)];
    let ann40 = vec![ser_str("Ann"), ser_int(40)];
    manager.update_composite_vertex_indexes(1, &ser_int(1), "cidx", &ann30).unwrap();
    manager.update_composite_vertex_indexes_mvcc(1, &ser_int(2), "cidx", &ann40, 7).unwrap();
    assert_eq!(manager.entry_count(), (2, 2));

    assert_eq!(manager.lookup_composite_tag_index(1, "cidx", &ann30).unwrap(), vec![ser_int(1)]);
    assert_eq!(manager.lookup_composite_tag_index(1, "cidx", &ann40).unwrap(), vec![ser_int(2)]);
    assert!(manager.lookup_composite_tag_index_mvcc(1, "cidx", &ann40, 6).unwrap().is_empty());
    // a whole lookup needs every field
    assert!(manager.lookup_composite_tag_index(1, "cidx", &[ser_str("Ann")]).unwrap().is_empty());

    let by_name = manager.lookup_composite_tag_index_prefix(1, "cidx", &[ser_str("Ann")], MAX_TIMESTAMP).unwrap();
    assert_eq!(by_name, vec![ser_int(1), ser_int(2)]);
    let all = manager.lookup_composite_tag_index_prefix(1, "cidx", &[], MAX_TIMESTAMP).unwrap();
    assert_eq!(all.len(), 2);
    let none = manager.lookup_composite_tag_index_prefix(1, "cidx", &[ser_str("Bob")], MAX_TIMESTAMP).unwrap();
    assert!(none.is_empty());
    let too_long = vec![ser_str("Ann"), ser_int(30), ser_int(1)];
    assert!(manager.lookup_composite_tag_index_prefix(1, "cidx", &too_long, MAX_TIMESTAMP).unwrap().is_empty());
}

#[test]
fn test_vertex_index_gc_keeps_lookups() {
    let mut manager = VertexIndexManager::new();
    let index = create_test_index("idx", "person");
    for id in 1..=4i64 {
        manager.update_vertex_indexes_mvcc(1, &ser_int(id), "idx", &name_props("Ann"), id as u32).unwrap();
    }
    manager.delete_vertex_indexes_mvcc(1, &ser_int(2), 10).unwrap();
    manager.delete_vertex_indexes_mvcc(1, &ser_int(3), 20).unwrap();
    let before: Vec<_> = [15u32, 20, 25, MAX_TIMESTAMP]
        .iter()
        .map(|ts| manager.lookup_tag_index_mvcc(1, &index, &ser_str("Ann"), *ts).unwrap())
        .collect();
    assert_eq!(manager.gc_tombstones(15).unwrap(), 2);
    let after: Vec<_> = [15u32, 20, 25, MAX_TIMESTAMP]
        .iter()
        .map(|ts| manager.lookup_tag_index_mvcc(1, &index, &ser_str("Ann"), *ts).unwrap())
        .collect();
    assert_eq!(before, after);
    assert_eq!(after[0], vec![ser_int(1), ser_int(3), ser_int(4)]);
    assert_eq!(after[2], vec![ser_int(1), ser_int(4)]);
}
