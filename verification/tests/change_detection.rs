use graphdb::changes::{compute_changed_fields, compute_edge_changed_fields, detect_changed_properties};
use graphdb::model::{Edge, Tag, Value, Vertex};

fn vertex_with(props: Vec<(&str, Value)>) -> Vertex {
    Vertex {
        vid: Box::new(Value::Int64(1)),
        id: 1,
        tags: vec![Tag {
            name: "test".to_string(),
            properties: props.into_iter().map(|(n, v)| (n.to_string(), v)).collect(),
        }],
        properties: vec![],
    }
}

fn edge_with(props: Vec<(&str, Value)>) -> Edge {
    Edge {
        src: Box::new(Value::Int64(1)),
        dst: Box::new(Value::Int64(2)),
        edge_type: "follow".to_string(),
        ranking: 0,
        id: 1,
        props: props.into_iter().map(|(n, v)| (n.to_string(), v)).collect(),
    }
}

#[test]
fn test_compute_changed_fields_no_changes() {
    let old = vertex_with(vec![("field1", Value::Int(10))]);
    let new = old.clone();
    let changed = compute_changed_fields(&old, &new);
    assert!(changed.is_empty(), "No fields should be changed");
}

#[test]
fn test_compute_changed_fields_value_change() {
    let old = vertex_with(vec![("field1", Value::Int(10)), ("field2", Value::Int(20))]);
    let new = vertex_with(vec![("field1", Value::Int(15)), ("field2", Value::Int(20))]);
    let changed = compute_changed_fields(&old, &new);
    assert_eq!(changed.len(), 1);
    assert!(changed.contains(&"field1".to_string()));
}

#[test]
fn test_compute_changed_fields_new_field() {
    let old = vertex_with(vec![("field1", Value::Int(10))]);
    let new = vertex_with(vec![("field1", Value::Int(10)), ("field2", Value::Int(20))]);
    let changed = compute_changed_fields(&old, &new);
    assert_eq!(changed.len(), 1);
    assert!(changed.contains(&"field2".to_string()));
}

#[test]
fn test_compute_edge_changed_fields() {
    let old = edge_with(vec![("weight", Value::Float(1.5f64.to_bits()))]);
    let new = edge_with(vec![("weight", Value::Float(2.0f64.to_bits()))]);
    let changed = compute_edge_changed_fields(&old, &new);
    assert_eq!(changed.len(), 1);
    assert!(changed.contains(&"weight".to_string()));
}

#[test]
fn edge_fields_unchanged_when_equal() {
    let old = edge_with(vec![("weight", Value::Float(1.5f64.to_bits())), ("since", Value::Int(2020))]);
    let new = old.clone();
    assert!(compute_edge_changed_fields(&old, &new).is_empty());
}

#[test]
fn removed_field_is_not_a_changed_field() {
    let old = vertex_with(vec![("field1", Value::Int(10)), ("field2", Value::Int(20))]);
    let new = vertex_with(vec![("field1", Value::Int(10))]);
    assert!(compute_changed_fields(&old, &new).is_empty());
}

#[test]
fn changed_vid_is_reported_first() {
    let old = vertex_with(vec![("field1", Value::Int(10))]);
    let mut new = vertex_with(vec![("field1", Value::Int(11))]);
    new.vid = Box::new(Value::Int64(2));
    assert_eq!(compute_changed_fields(&old, &new), vec!["vid".to_string(), "field1".to_string()]);
}

#[test]
fn value_kind_change_is_a_change() {
    let old = vertex_with(vec![("n", Value::Int(7))]);
    let new = vertex_with(vec![("n", Value::Int64(7))]);
    assert_eq!(compute_changed_fields(&old, &new), vec!["n".to_string()]);
}

#[test]
fn edge_endpoint_and_ranking_changes() {
    let old = edge_with(vec![("weight", Value::Int(1))]);
    let mut new = edge_with(vec![("weight", Value::Int(1))]);
    new.dst = Box::new(Value::Int64(3));
    new.ranking = 5;
    assert_eq!(compute_edge_changed_fields(&old, &new), vec!["dst".to_string(), "ranking".to_string()]);
}

#[test]
fn detect_changed_properties_gives_new_values() {
    let old = vertex_with(vec![("field1", Value::Int(10)), ("field2", Value::Int(20))]);
    let new = vertex_with(vec![("field1", Value::Int(11)), ("field2", Value::Int(20)), ("field3", Value::Bool(true))]);
    let changed = detect_changed_properties(&old, &new);
    assert_eq!(
        changed,
        vec![("field1".to_string(), Value::Int(11)), ("field3".to_string(), Value::Bool(true))]
    );
}

#[test]
fn detect_changed_properties_none_when_same() {
    let old = vertex_with(vec![("field1", Value::String("a".to_string()))]);
    let new = old.clone();
    assert!(detect_changed_properties(&old, &new).is_empty());
}

#[test]
fn shared_name_with_two_values_counts_as_changed() {
    let v = Vertex {
        vid: Box::new(Value::Int64(1)),
        id: 1,
        tags: vec![
            Tag { name: "a".to_string(), properties: vec![("x".to_string(), Value::Int(1))] },
            Tag { name: "b".to_string(), properties: vec![("x".to_string(), Value::Int(2))] },
        ],
        properties: vec![],
    };
    let same = v.clone();
    assert_eq!(compute_changed_fields(&v, &same), vec!["x".to_string()]);
}

#[test]
fn detect_changes_across_tags() {
    let old = Vertex {
        vid: Box::new(Value::Int64(1)),
        id: 1,
        tags: vec![Tag { name: "a".to_string(), properties: vec![("x".to_string(), Value::Int(1)), ("y".to_string(), Value::Int(2))] }],
        properties: vec![],
    };
    let new = Vertex {
        vid: Box::new(Value::Int64(1)),
        id: 1,
        tags: vec![
            Tag { name: "a".to_string(), properties: vec![("x".to_string(), Value::Int(1))] },
            Tag { name: "b".to_string(), properties: vec![("z".to_string(), Value::Null)] },
        ],
        properties: vec![],
    };
    assert_eq!(
        detect_changed_properties(&old, &new),
        vec![("y".to_string(), Value::Int(2)), ("z".to_string(), Value::Null)]
    );
}
