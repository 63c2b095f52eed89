use bincode::config::standard;
use bincode::encode_to_vec;
use graphdb::model::{Index, IndexConfig, IndexField, IndexType, Value};
use graphdb::unversioned_vertex_index::VertexIndexManager;

fn ser_str(s: &str) -> Vec<u8> {
    encode_to_vec(s, standard()).unwrap()
}

fn ser_int(i: i64) -> Vec<u8> {
    encode_to_vec(i, standard()).unwrap()
}

fn create_test_index(name: &str, schema_name: &str) -> Index {
    Index::new(IndexConfig {
        id: 1,
        name: name.to_string(),
        space_id: 1,
        schema_name: schema_name.to_string(),
        fields: vec![IndexField::new("name".to_string(), Value::String("".to_string()), false)],
        properties: vec![],
        index_type: IndexType::TagIndex,
        is_unique: false,
        partial_condition: None,
    })
}

#[test]
fn unversioned_update_lookup_and_delete() {
    let mut manager = VertexIndexManager::new();
    let index = create_test_index("idx_person_name", "person");
    manager
        .update_vertex_indexes(1, &ser_int(1), "idx_person_name", &[("name".to_string(), ser_str("Alice"))])
        .unwrap();
    manager
        .update_vertex_indexes(1, &ser_int(2), "idx_person_name", &[("name".to_string(), ser_str("Bob"))])
        .unwrap();
    assert_eq!(manager.lookup_tag_index(1, &index, &ser_str("Alice")).unwrap(), vec![ser_int(1)]);
    assert_eq!(manager.lookup_tag_index(1, &index, &ser_str("Bob")).unwrap(), vec![ser_int(2)]);
    assert!(manager.lookup_tag_index(1, &index, &ser_str("Carol")).unwrap().is_empty());

    manager.delete_vertex_indexes(1, &ser_int(1)).unwrap();
    assert!(manager.lookup_tag_index(1, &index, &ser_str("Alice")).unwrap().is_empty());
    assert_eq!(manager.lookup_tag_index(1, &index, &ser_str("Bob")).unwrap().len(), 1);
    assert_eq!(manager.entry_count(), (1, 1));
}

#[test]
fn unversioned_multiple_properties() {
    let mut manager = VertexIndexManager::new();
    let index = create_test_index("idx_person", "person");
    let props = vec![("name".to_string(), ser_str("Alice")), ("age".to_string(), ser_int(30))];
    manager.update_vertex_indexes(1, &ser_int(1), "idx_person", &props).unwrap();
    assert_eq!(manager.lookup_tag_index(1, &index, &ser_str("Alice")).unwrap(), vec![ser_int(1)]);
    assert_eq!(manager.lookup_tag_index(1, &index, &ser_int(30)).unwrap(), vec![ser_int(1)]);
    // one reverse entry per index and vertex
    assert_eq!(manager.entry_count(), (2, 1));
}

#[test]
fn unversioned_tag_and_clear() {
    let mut manager = VertexIndexManager::default();
    let index = create_test_index("person_name", "person");
    manager.update_vertex_indexes(1, &ser_int(1), "person_name", &[("name".to_string(), ser_str("A"))]).unwrap();
    manager.update_vertex_indexes(1, &ser_int(1), "city_name", &[("name".to_string(), ser_str("R"))]).unwrap();
    manager.delete_tag_indexes(1, &ser_int(1), "person").unwrap();
    assert_eq!(manager.entry_count(), (2, 1));
    manager.clear_tag_index(1, "person_name").unwrap();
    assert_eq!(manager.entry_count(), (1, 1));
    assert_eq!(manager.try_lookup_tag_index(1, &index, &ser_str("A")), Some(vec![]));
}
