use std::cell::RefCell;

use graphdb::error::StorageError;
use graphdb::index_updater::{
    index_names_for, index_props, index_writes_for, vertex_index_writes, IndexDataManager, IndexMetadataManager,
    IndexUndoEntry, IndexUndoLog, IndexUpdateContext, IndexUpdater, UndoCall, apply_call, revert_call,
};
use graphdb::model::{Edge, Index, IndexConfig, IndexField, IndexType, Tag, Value};
use graphdb::mvcc::{Timestamp, MAX_TIMESTAMP};

#[derive(Default)]
struct Recorder {
    calls: RefCell<Vec<String>>,
    fail_on: Option<String>,
}

impl Recorder {
    fn log(&self, s: String) -> Result<(), StorageError> {
        let fail = self.fail_on.as_ref().map(|f| s.contains(f.as_str())).unwrap_or(false);
        self.calls.borrow_mut().push(s);
        if fail {
            Err(StorageError::DbError("refused".to_string()))
        } else {
            Ok(())
        }
    }
    fn calls(&self) -> Vec<String> {
        self.calls.borrow().clone()
    }
}

fn props_str(props: &[(String, Value)]) -> String {
    props.iter().map(|(n, v)| format!("{}={:?}", n, v)).collect::<Vec<_>>().join(",")
}

impl IndexDataManager for Recorder {
    fn update_vertex_indexes_mvcc(
        &self,
        space_id: u64,
        vertex_id: &Value,
        index_name: &str,
        props: &[(String, Value)],
        write_ts: Timestamp,
    ) -> Result<(), StorageError> {
        self.log(format!("uv {} {:?} {} [{}] {}", space_id, vertex_id, index_name, props_str(props), write_ts))
    }
    fn update_edge_indexes_mvcc(
        &self,
        space_id: u64,
        src: &Value,
        dst: &Value,
        index_name: &str,
        props: &[(String, Value)],
        write_ts: Timestamp,
    ) -> Result<(), StorageError> {
        self.log(format!("ue {} {:?} {:?} {} [{}] {}", space_id, src, dst, index_name, props_str(props), write_ts))
    }
    fn delete_vertex_indexes_mvcc(&self, space_id: u64, vertex_id: &Value, write_ts: Timestamp) -> Result<(), StorageError> {
        self.log(format!("dv {} {:?} {}", space_id, vertex_id, write_ts))
    }
    fn delete_vertex_index_single_mvcc(
        &self,
        space_id: u64,
        vertex_id: &Value,
        index_name: &str,
        prop_value: &Value,
        write_ts: Timestamp,
    ) -> Result<(), StorageError> {
        self.log(format!("dv1 {} {:?} {} {:?} {}", space_id, vertex_id, index_name, prop_value, write_ts))
    }
    fn delete_edge_indexes_mvcc(
        &self,
        space_id: u64,
        src: &Value,
        dst: &Value,
        index_names: &[String],
        write_ts: Timestamp,
    ) -> Result<(), StorageError> {
        self.log(format!("de {} {:?} {:?} {:?} {}", space_id, src, dst, index_names, write_ts))
    }
    fn delete_edge_index_single_mvcc(
        &self,
        space_id: u64,
        src: &Value,
        dst: &Value,
        index_name: &str,
        prop_value: &Value,
        write_ts: Timestamp,
    ) -> Result<(), StorageError> {
        self.log(format!("de1 {} {:?} {:?} {} {:?} {}", space_id, src, dst, index_name, prop_value, write_ts))
    }
    fn delete_tag_indexes(&self, space_id: u64, vertex_id: &Value, tag_name: &str) -> Result<(), StorageError> {
        self.log(format!("dt {} {:?} {}", space_id, vertex_id, tag_name))
    }
    fn update_vertex_indexes_native_mvcc(
        &self,
        space_id: u64,
        vertex_id: u64,
        index_name: &str,
        props: &[(String, Value)],
        write_ts: Timestamp,
    ) -> Result<(), StorageError> {
        self.log(format!("uvn {} {} {} [{}] {}", space_id, vertex_id, index_name, props_str(props), write_ts))
    }
    fn delete_vertex_indexes_native_mvcc(&self, space_id: u64, vertex_id: u64, write_ts: Timestamp) -> Result<(), StorageError> {
        self.log(format!("dvn {} {} {}", space_id, vertex_id, write_ts))
    }
    fn update_edge_indexes_native_mvcc(
        &self,
        space_id: u64,
        src: u64,
        dst: u64,
        index_name: &str,
        props: &[(String, Value)],
        write_ts: Timestamp,
    ) -> Result<(), StorageError> {
        self.log(format!("uen {} {} {} {} [{}] {}", space_id, src, dst, index_name, props_str(props), write_ts))
    }
    fn delete_edge_indexes_native_mvcc(
        &self,
        space_id: u64,
        src: u64,
        dst: u64,
        index_names: &[String],
        write_ts: Timestamp,
    ) -> Result<(), StorageError> {
        self.log(format!("den {} {} {} {:?} {}", space_id, src, dst, index_names, write_ts))
    }
}

struct Schema {
    tag_indexes: Vec<(&'static str, &'static str, Vec<&'static str>)>,
    edge_indexes: Vec<(&'static str, &'static str, Vec<&'static str>)>,
}

fn make_index(name: &str, schema: &str, fields: &[&str], index_type: IndexType) -> Index {
    Index::new(IndexConfig {
        id: 1,
        name: name.to_string(),
        space_id: 1,
        schema_name: schema.to_string(),
        fields: fields.iter().map(|f| IndexField::new(f.to_string(), Value::Null, true)).collect(),
        properties: vec![],
        index_type,
        is_unique: false,
        partial_condition: None,
    })
}

impl IndexMetadataManager for Schema {
    fn list_tag_indexes(&self, _space_id: u64) -> Result<Vec<Index>, StorageError> {
        Ok(self.tag_indexes.iter().map(|(n, s, f)| make_index(n, s, f, IndexType::TagIndex)).collect())
    }
    fn list_edge_indexes(&self, _space_id: u64) -> Result<Vec<Index>, StorageError> {
        Ok(self.edge_indexes.iter().map(|(n, s, f)| make_index(n, s, f, IndexType::EdgeIndex)).collect())
    }
}

fn schema() -> Schema {
    Schema {
        tag_indexes: vec![
            ("idx_person_name", "person", vec!["name"]),
            ("idx_person_age", "person", vec!["age"]),
            ("idx_city", "city", vec!["name"]),
        ],
        edge_indexes: vec![("idx_follow_w", "follow", vec!["weight"]), ("idx_like", "like", vec!["w"])],
    }
}

fn person(name: &str, age: i64) -> Tag {
    Tag::new(
        "person".to_string(),
        vec![("name".to_string(), Value::String(name.to_string())), ("age".to_string(), Value::Int(age))],
    )
}

fn follow(w: i64) -> Edge {
    Edge {
        src: Box::new(Value::Int64(1)),
        dst: Box::new(Value::Int64(2)),
        edge_type: "follow".to_string(),
        ranking: 0,
        id: 9,
        props: vec![("weight".to_string(), Value::Int(w))],
    }
}

#[test]
fn index_updater_test_index_field_creation() {
    let field = IndexField::new("name".to_string(), Value::String("test".to_string()), false);

    assert_eq!(field.name, "name");
    assert!(!field.is_nullable);
}

#[test]
fn index_updater_test_index_creation() {
    let index = Index::new(IndexConfig {
        id: 1,
        name: "idx_person_name".to_string(),
        space_id: 1,
        schema_name: "person".to_string(),
        fields: vec![IndexField::new("name".to_string(), Value::String("".to_string()), false)],
        properties: vec![],
        index_type: IndexType::TagIndex,
        is_unique: false,
        partial_condition: None,
    });

    assert_eq!(index.name, "idx_person_name");
    assert_eq!(index.schema_name, "person");
    assert_eq!(index.index_type, IndexType::TagIndex);
}

#[test]
fn planned_writes_follow_index_order() {
    let indexes = schema().list_tag_indexes(1).unwrap();
    let writes = vertex_index_writes(&indexes, &[person("ann", 30)]);
    let names: Vec<&str> = writes.iter().map(|w| w.index_name.as_str()).collect();
    assert_eq!(names, vec!["idx_person_name", "idx_person_age"]);
    assert_eq!(writes[1].props, vec![("age".to_string(), Value::Int(30))]);
    let p = index_props(&indexes[0], &vec![("age".to_string(), Value::Int(1))]);
    assert!(p.is_empty());
    assert_eq!(index_names_for(&indexes, "city"), vec!["idx_city".to_string()]);
    let ew = index_writes_for(&schema().list_edge_indexes(1).unwrap(), "follow", &follow(3).props);
    assert_eq!(ew.len(), 1);
    assert_eq!(ew[0].index_name, "idx_follow_w");
}

#[test]
fn updater_writes_vertex_and_edge_indexes() {
    let rec = Recorder::default();
    let meta = schema();
    let up = IndexUpdater::new(&rec, &meta, "space".to_string(), 7);
    assert_eq!(up.space_name(), "space");
    assert_eq!(up.space_id(), 7);
    up.update_vertex_indexes_mvcc(&Value::Int64(5), &[person("bo", 4)], 11).unwrap();
    up.update_edge_indexes(&follow(2)).unwrap();
    up.delete_edge_indexes(&follow(2)).unwrap();
    up.delete_vertex_indexes(&Value::Int64(5)).unwrap();
    up.delete_tag_indexes(&Value::Int64(5), "person").unwrap();
    assert_eq!(
        rec.calls(),
        vec![
            "uv 7 Int64(5) idx_person_name [name=String(\"bo\")] 11".to_string(),
            "uv 7 Int64(5) idx_person_age [age=Int(4)] 11".to_string(),
            format!("ue 7 Int64(1) Int64(2) idx_follow_w [weight=Int(2)] {}", MAX_TIMESTAMP),
            format!("de 7 Int64(1) Int64(2) [\"idx_follow_w\"] {}", MAX_TIMESTAMP),
            format!("dv 7 Int64(5) {}", MAX_TIMESTAMP),
            "dt 7 Int64(5) person".to_string(),
        ]
    );
}

#[test]
fn batch_update_stops_at_first_failure() {
    let rec = Recorder { calls: RefCell::new(vec![]), fail_on: Some("Int64(2) idx_person_name".to_string()) };
    let meta = schema();
    let up = IndexUpdater::new(&rec, &meta, "s".to_string(), 1);
    let vs = vec![
        (Value::Int64(1), vec![person("a", 1)]),
        (Value::Int64(2), vec![person("b", 2)]),
        (Value::Int64(3), vec![person("c", 3)]),
    ];
    assert!(up.batch_update_vertex_indexes(&vs).is_err());
    assert_eq!(rec.calls().len(), 3);
}

#[test]
fn undo_log_reverts_newest_first() {
    let rec = Recorder::default();
    let mut log = IndexUndoLog::new();
    assert!(log.is_empty());
    log.add(IndexUndoEntry::insert_vertex_index(
        1,
        "i".to_string(),
        Value::Int64(1),
        "name".to_string(),
        Value::String("a".to_string()),
    ));
    log.add(IndexUndoEntry::delete_edge_index(
        1,
        "e".to_string(),
        Value::Int64(1),
        Value::Int64(2),
        "w".to_string(),
        Value::Int(3),
    ));
    assert_eq!(log.len(), 2);
    log.execute_undo(&rec).unwrap();
    assert!(log.is_empty());
    assert_eq!(
        rec.calls(),
        vec![
            format!("ue 1 Int64(1) Int64(2) e [w=Int(3)] {}", MAX_TIMESTAMP),
            format!("dv1 1 Int64(1) i String(\"a\") {}", MAX_TIMESTAMP),
        ]
    );
}

#[test]
fn undo_failure_keeps_older_entries() {
    let rec = Recorder { calls: RefCell::new(vec![]), fail_on: Some("dv1".to_string()) };
    let mut log = IndexUndoLog::new();
    log.add(IndexUndoEntry::insert_vertex_index(1, "a".to_string(), Value::Int64(1), "p".to_string(), Value::Int(1)));
    log.add(IndexUndoEntry::insert_vertex_index(1, "b".to_string(), Value::Int64(1), "p".to_string(), Value::Int(2)));
    assert!(log.execute_undo(&rec).is_err());
    assert_eq!(log.len(), 1);
}

#[test]
fn recorded_vertex_entries_match_index_fields() {
    let indexes = schema().list_tag_indexes(1).unwrap();
    let mut log = IndexUndoLog::new();
    log.record_vertex(true, 1, &indexes, &Value::Int64(3), &[person("z", 9)]);
    assert_eq!(log.len(), 2);
    let taken = log.take_entries();
    assert!(log.is_empty());
    assert!(matches!(&taken[0], IndexUndoEntry::InsertVertexIndex { index_name, .. } if index_name == "idx_person_name"));
    let edges = schema().list_edge_indexes(1).unwrap();
    log.record_edge(false, 1, &edges, &follow(1));
    assert_eq!(log.len(), 1);
    assert!(matches!(&log.entries()[0], IndexUndoEntry::DeleteEdgeIndex { .. }));
    log.clear();
    assert!(log.is_empty());
}

#[test]
fn context_commit_and_rollback() {
    let rec = Recorder::default();
    let meta = schema();
    let mut ctx = IndexUpdateContext::new(&rec, &meta, "s".to_string(), 1);
    ctx.add_vertex_update(Value::Int64(1), vec![person("a", 1)]);
    ctx.add_edge_update(follow(5));
    ctx.commit().unwrap();
    let committed = rec.calls().len();
    assert!(committed >= 3);
    assert_eq!(ctx.undo_log().len(), 3);
    ctx.rollback().unwrap();
    assert!(ctx.undo_log().is_empty());
    assert_eq!(rec.calls().len(), committed + 3);
}

#[test]
fn empty_batches_and_commit_succeed_without_calls() {
    let rec = Recorder { calls: RefCell::new(vec![]), fail_on: Some("".to_string()) };
    let meta = schema();
    let up = IndexUpdater::new(&rec, &meta, "s".to_string(), 1);
    assert!(up.batch_update_vertex_indexes(&[]).is_ok());
    assert!(up.batch_update_edge_indexes(&[]).is_ok());
    assert!(up.batch_delete_vertex_indexes(&[]).is_ok());
    assert!(up.batch_delete_edge_indexes(&[]).is_ok());
    let mut ctx = IndexUpdateContext::new(&rec, &meta, "s".to_string(), 1);
    assert!(ctx.commit().is_ok());
    assert!(ctx.undo_log().is_empty());
    assert!(rec.calls().is_empty());
}

#[test]
fn undo_plan_reverts_newest_first_without_touching_the_log() {
    let mut log = IndexUndoLog::new();
    log.add(IndexUndoEntry::insert_vertex_index(1, "i".to_string(), Value::Int64(1), "name".to_string(), Value::Int(5)));
    log.add(IndexUndoEntry::delete_vertex_index(1, "i".to_string(), Value::Int64(2), "name".to_string(), Value::Int(6)));
    log.add(IndexUndoEntry::insert_edge_index(1, "e".to_string(), Value::Int64(1), Value::Int64(2), "w".to_string(), Value::Int(7)));
    log.add(IndexUndoEntry::delete_edge_index(1, "e".to_string(), Value::Int64(3), Value::Int64(4), "w".to_string(), Value::Int(8)));
    let plan = log.undo_plan();
    assert_eq!(log.len(), 4);
    assert_eq!(plan.len(), 4);
    assert!(matches!(&plan[0], UndoCall::UpdateEdgeIndexes { props, .. } if props.len() == 1 && props[0].1 == Value::Int(8)));
    assert!(matches!(&plan[1], UndoCall::DeleteEdgeIndexSingle { prop_value: Value::Int(7), write_ts, .. } if *write_ts == MAX_TIMESTAMP));
    assert!(matches!(&plan[2], UndoCall::UpdateVertexIndexes { vertex_id: Value::Int64(2), .. }));
    assert!(matches!(&plan[3], UndoCall::DeleteVertexIndexSingle { vertex_id: Value::Int64(1), .. }));

    // the calls the plan names are the calls execute_undo makes
    let planned = Recorder::default();
    for c in &plan {
        apply_call(&planned, c).unwrap();
    }
    let executed = Recorder::default();
    let mut copy = log.clone();
    copy.execute_undo(&executed).unwrap();
    assert_eq!(planned.calls(), executed.calls());
    assert!(copy.is_empty());
    assert_eq!(log.len(), 4);
}

#[test]
fn revert_call_of_a_deleted_vertex_entry_writes_it_back() {
    let e = IndexUndoEntry::delete_vertex_index(3, "i".to_string(), Value::Int64(9), "p".to_string(), Value::Bool(true));
    let c = revert_call(e.clone());
    assert!(matches!(c, UndoCall::UpdateVertexIndexes { space_id: 3, .. }));
}
