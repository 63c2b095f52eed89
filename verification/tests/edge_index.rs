use bincode::config::standard;
use bincode::encode_to_vec;
use graphdb::edge_index::EdgeIndexManager;
use graphdb::model::{Index, IndexConfig, IndexField, IndexType, Value};

fn ser_int(i: i64) -> Vec<u8> {
    encode_to_vec(i, standard()).unwrap()
}

fn ser_float(f: f64) -> Vec<u8> {
    encode_to_vec(f, standard()).unwrap()
}

fn create_test_index(name: &str, schema_name: &str) -> Index {
    Index::new(IndexConfig {
        id: 1,
        name: name.to_string(),
        space_id: 1,
        schema_name: schema_name.to_string(),
        fields: vec![IndexField::new("weight".to_string(), Value::Float(0f64.to_bits()), false)],
        properties: vec![],
        index_type: IndexType::EdgeIndex,
        is_unique: false,
        partial_condition: None,
    })
}

#[test]
fn test_update_and_lookup_edge_index() {
    let mut manager = EdgeIndexManager::new();

    let space_id = 1u64;
    let src = ser_int(1);
    let dst = ser_int(2);
    let index_name = "idx_edge_weight";
    let props = vec![("weight".to_string(), ser_float(10.5))];

    manager
        .update_edge_indexes(space_id, &src, &dst, index_name, &props)
        .expect("Failed to update edge indexes");

    let index = create_test_index(index_name, "knows");

    let results = manager.lookup_edge_index(space_id, &index, &ser_float(10.5)).expect("Failed to lookup edge index");
    assert_eq!(results.len(), 1);
    assert_eq!(results[0], src);

    let empty_results =
        manager.lookup_edge_index(space_id, &index, &ser_float(99.9)).expect("Failed to lookup edge index");
    assert!(empty_results.is_empty());
}

#[test]
fn test_delete_edge_indexes() {
    let mut manager = EdgeIndexManager::new();

    let space_id = 1u64;
    let src1 = ser_int(1);
    let dst1 = ser_int(2);
    let src2 = ser_int(3);
    let dst2 = ser_int(4);
    let index_name = "idx_edge_weight";

    let props1 = vec![("weight".to_string(), ser_float(10.5))];
    let props2 = vec![("weight".to_string(), ser_float(20.5))];

    manager
        .update_edge_indexes(space_id, &src1, &dst1, index_name, &props1)
        .expect("Failed to update edge indexes");
    manager
        .update_edge_indexes(space_id, &src2, &dst2, index_name, &props2)
        .expect("Failed to update edge indexes");

    let index = create_test_index(index_name, "knows");

    let results1 = manager.lookup_edge_index(space_id, &index, &ser_float(10.5)).expect("Failed to lookup edge index");
    assert_eq!(results1.len(), 1);

    let results2 = manager.lookup_edge_index(space_id, &index, &ser_float(20.5)).expect("Failed to lookup edge index");
    assert_eq!(results2.len(), 1);

    manager
        .delete_edge_indexes(space_id, &src1, &dst1, &[index_name.to_string()])
        .expect("Failed to delete edge indexes");

    let results1_after =
        manager.lookup_edge_index(space_id, &index, &ser_float(10.5)).expect("Failed to lookup edge index");
    assert!(results1_after.is_empty());

    let results2_after =
        manager.lookup_edge_index(space_id, &index, &ser_float(20.5)).expect("Failed to lookup edge index");
    assert_eq!(results2_after.len(), 1);
}

#[test]
fn test_clear_edge_index() {
    let mut manager = EdgeIndexManager::new();

    let space_id = 1u64;
    let src = ser_int(1);
    let dst = ser_int(2);
    let index_name = "idx_edge_weight";

    let props = vec![("weight".to_string(), ser_float(10.5))];
    manager
        .update_edge_indexes(space_id, &src, &dst, index_name, &props)
        .expect("Failed to update edge indexes");

    let index = create_test_index(index_name, "knows");
    let results = manager.lookup_edge_index(space_id, &index, &ser_float(10.5)).expect("Failed to lookup edge index");
    assert_eq!(results.len(), 1);

    manager.clear_edge_index(space_id, index_name).expect("Failed to clear edge index");

    let results_after =
        manager.lookup_edge_index(space_id, &index, &ser_float(10.5)).expect("Failed to lookup edge index");
    assert!(results_after.is_empty());
}

#[test]
fn edge_delete_keeps_other_indexes_and_destinations() {
    let mut manager = EdgeIndexManager::new();
    let w = vec![("weight".to_string(), ser_float(1.0))];
    manager.update_edge_indexes(1, &ser_int(1), &ser_int(2), "a", &w).unwrap();
    manager.update_edge_indexes(1, &ser_int(1), &ser_int(2), "b", &w).unwrap();
    assert_eq!(manager.entry_count(), (2, 2));
    // only the named index loses its entries
    manager.delete_edge_indexes(1, &ser_int(1), &ser_int(2), &["a".to_string()]).unwrap();
    assert_eq!(manager.entry_count(), (1, 1));
    // a different destination keeps its forward entry; the reverse entry of the source goes
    manager.delete_edge_indexes(1, &ser_int(1), &ser_int(9), &["b".to_string()]).unwrap();
    assert_eq!(manager.entry_count(), (1, 0));
    // another space is not touched
    manager.update_edge_indexes(2, &ser_int(1), &ser_int(2), "b", &w).unwrap();
    manager.delete_edge_indexes(1, &ser_int(1), &ser_int(2), &["b".to_string()]).unwrap();
    assert_eq!(manager.entry_count(), (2, 1));
}

#[test]
fn edge_reverse_value_holds_the_last_length() {
    // two properties of different value lengths: the reverse value keeps the last,
    // so only forward keys of that length are matched on deletion
    let mut manager = EdgeIndexManager::new();
    let props = vec![("w".to_string(), vec![1u8, 2, 3]), ("n".to_string(), vec![9u8])];
    manager.update_edge_indexes(1, &[7], &[8], "e", &props).unwrap();
    assert_eq!(manager.entry_count(), (2, 1));
    manager.delete_edge_indexes(1, &[7], &[8], &["e".to_string()]).unwrap();
    assert_eq!(manager.entry_count(), (1, 0));
    let index = create_test_index("e", "knows");
    assert_eq!(manager.lookup_edge_index(1, &index, &[1, 2, 3]).unwrap(), vec![vec![7u8]]);
    assert!(manager.lookup_edge_index(1, &index, &[9]).unwrap().is_empty());
    assert!(EdgeIndexManager::default().try_lookup_edge_index(1, &index, &[9]).unwrap().is_empty());
}
