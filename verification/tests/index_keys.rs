use bincode::config::standard;
use bincode::{decode_from_slice, encode_to_vec};
use graphdb::error::StorageError;
use graphdb::key_codec::{
    ByteKey, IndexKeyCodec, KEY_TYPE_EDGE_FORWARD, KEY_TYPE_EDGE_REVERSE, KEY_TYPE_VERTEX_FORWARD,
    KEY_TYPE_VERTEX_REVERSE,
};
use graphdb::key_parser::KeyParser;

fn ser_str(s: &str) -> Vec<u8> {
    encode_to_vec(s, standard()).unwrap()
}

fn ser_int(i: i64) -> Vec<u8> {
    encode_to_vec(i, standard()).unwrap()
}

fn de_int(b: &[u8]) -> i64 {
    decode_from_slice::<i64, _>(b, standard()).unwrap().0
}

fn framed(out: &mut Vec<u8>, b: &[u8]) {
    out.extend_from_slice(&(b.len() as u32).to_le_bytes());
    out.extend_from_slice(b);
}

/// `[space][type][name_len][name][prop_len][prop]` followed by raw ids.
fn native_forward_key(space_id: u64, key_type: u8, name: &str, prop: &[u8], ids: &[u64]) -> Vec<u8> {
    let mut k = space_id.to_le_bytes().to_vec();
    k.push(key_type);
    framed(&mut k, name.as_bytes());
    framed(&mut k, prop);
    for id in ids {
        k.extend_from_slice(&id.to_le_bytes());
    }
    k
}

fn db_message(e: StorageError) -> String {
    match e {
        StorageError::DbError(m) => m,
        other => panic!("unexpected error {:?}", other),
    }
}

#[test]
fn test_build_vertex_index_key() {
    let space_id = 1u64;
    let index_name = "idx_test";
    let prop_value = ser_str("test_value");
    let vertex_id = ser_int(123);

    let key = IndexKeyCodec::build_vertex_index_key(space_id, index_name, &prop_value, &vertex_id);

    assert!(key.0.len() > 9);
    assert_eq!(key.0[8], KEY_TYPE_VERTEX_FORWARD);

    let parsed_vid = IndexKeyCodec::parse_vertex_id_from_key(&key.0).unwrap();
    assert_eq!(parsed_vid, vertex_id);
    assert_eq!(de_int(&parsed_vid), 123);
}

#[test]
fn test_build_vertex_reverse_key() {
    let space_id = 1u64;
    let index_name = "idx_test";
    let vertex_id = ser_int(456);

    let key = IndexKeyCodec::build_vertex_reverse_key(space_id, index_name, &vertex_id);

    assert!(key.0.len() > 9);
    assert_eq!(key.0[8], KEY_TYPE_VERTEX_REVERSE);

    let (parsed_name, parsed_vid_bytes) = IndexKeyCodec::parse_vertex_reverse_key(&key.0).unwrap();
    assert_eq!(parsed_name, index_name);
    assert_eq!(de_int(&parsed_vid_bytes), 456);
}

#[test]
fn test_build_edge_index_key() {
    let space_id = 1u64;
    let index_name = "idx_edge_test";
    let prop_value = ser_str("edge_prop");
    let src = ser_int(100);
    let dst = ser_int(200);

    let key = IndexKeyCodec::build_edge_index_key(space_id, index_name, &prop_value, &src, &dst);

    assert!(key.0.len() > 9);
    assert_eq!(key.0[8], KEY_TYPE_EDGE_FORWARD);
}

#[test]
fn test_build_edge_reverse_key() {
    let space_id = 1u64;
    let index_name = "idx_edge_test";
    let src = ser_int(300);

    let key = IndexKeyCodec::build_edge_reverse_key(space_id, index_name, &src);

    assert!(key.0.len() > 9);
    assert_eq!(key.0[8], KEY_TYPE_EDGE_REVERSE);

    let (parsed_name, parsed_src_bytes) = IndexKeyCodec::parse_edge_reverse_key(&key.0).unwrap();
    assert_eq!(parsed_name, index_name);
    assert_eq!(de_int(&parsed_src_bytes), 300);
}

#[test]
fn test_build_range_end() {
    let prefix = ByteKey(vec![1, 2, 3]);
    let end = IndexKeyCodec::build_range_end(&prefix);
    assert_eq!(end.0, vec![1, 2, 4]);

    let prefix_max = ByteKey(vec![1, 2, 255]);
    let end_max = IndexKeyCodec::build_range_end(&prefix_max);
    assert_eq!(end_max.0, vec![1, 3, 0]);
}

#[test]
fn range_end_follows_every_extension() {
    let prefix = ByteKey(vec![1, 255]);
    let end = IndexKeyCodec::build_range_end(&prefix);
    assert_eq!(end.0, vec![2, 0]);
    assert!(prefix.0 < end.0);
    assert!(vec![1u8, 255, 255, 255, 7] < end.0);
}

#[test]
fn vertex_index_key_layout() {
    let key = IndexKeyCodec::build_vertex_index_key(7, "ab", &[9], &[1, 2]);
    let mut expected = 7u64.to_le_bytes().to_vec();
    expected.extend_from_slice(&[3, 2, 0, 0, 0, b'a', b'b', 1, 0, 0, 0, 9, 2, 0, 0, 0, 1, 2]);
    assert_eq!(key.0, expected);
}

#[test]
fn prefixes_start_their_keys() {
    let key = IndexKeyCodec::build_vertex_index_key(3, "idx", &[1, 2], &[5]);
    let prefix = IndexKeyCodec::build_vertex_index_prefix(3, "idx");
    assert!(key.0.starts_with(&prefix.0));
    let end = IndexKeyCodec::build_range_end(&prefix);
    assert!(key.0 < end.0);
    let ekey = IndexKeyCodec::build_edge_index_key(3, "e", &[1], &[2], &[3]);
    assert!(ekey.0.starts_with(&IndexKeyCodec::build_edge_index_prefix(3, "e").0));
    let rkey = IndexKeyCodec::build_vertex_reverse_key(3, "idx", &[5]);
    assert!(rkey.0.starts_with(&IndexKeyCodec::build_vertex_reverse_prefix(3).0));
    let erkey = IndexKeyCodec::build_edge_reverse_key(3, "e", &[2]);
    assert!(erkey.0.starts_with(&IndexKeyCodec::build_edge_reverse_prefix(3).0));
}

#[test]
fn parse_vertex_id_of_short_key_fails() {
    let e = IndexKeyCodec::parse_vertex_id_from_key(&[0; 10]).unwrap_err();
    assert_eq!(db_message(e), "Invalid key: too short");
}

#[test]
fn parse_vertex_id_with_truncated_id_fails() {
    let mut key = IndexKeyCodec::build_vertex_index_key(1, "i", &[1], &[1, 2, 3]).0;
    key.pop();
    let e = IndexKeyCodec::parse_vertex_id_from_key(&key).unwrap_err();
    assert_eq!(db_message(e), "Invalid key: vertex_id exceeds key length");
}

#[test]
fn reverse_key_with_bad_name_is_refused() {
    let key = IndexKeyCodec::build_vertex_reverse_key(1, "x", &[1]);
    let mut bytes = key.0.clone();
    bytes[13] = 0xff;
    assert!(matches!(IndexKeyCodec::parse_vertex_reverse_key(&bytes), Err(StorageError::DbError(_))));
}

#[test]
fn test_parse_vertex_id_from_key() {
    let space_id = 1u64;
    let index_name = "idx_test";
    let prop_value = ser_str("test_value");
    let vertex_id = ser_int(123);

    let key = IndexKeyCodec::build_vertex_index_key(space_id, index_name, &prop_value, &vertex_id);

    let parsed_vid = KeyParser::parse_vertex_id_from_key(&key.0).expect("parse_vertex_id_from_key should succeed");
    assert_eq!(parsed_vid, vertex_id);
}

#[test]
fn test_parse_vertex_reverse_key_v2() {
    let vertex_id = ser_int(456);
    let index_name = "idx_test";
    let mut key = 1u64.to_le_bytes().to_vec();
    key.push(KEY_TYPE_VERTEX_REVERSE);
    framed(&mut key, &vertex_id);
    framed(&mut key, index_name.as_bytes());

    let (parsed_vid_bytes, parsed_name) =
        KeyParser::parse_vertex_reverse_key_v2(&key).expect("parse_vertex_reverse_key_v2 should succeed");
    assert_eq!(parsed_name, index_name);
    assert_eq!(parsed_vid_bytes, vertex_id);
}

#[test]
fn test_parse_edge_reverse_key_v2() {
    let src = ser_int(100);
    let dst = ser_int(200);
    let index_name = "edge_idx";
    let mut key = 1u64.to_le_bytes().to_vec();
    key.push(KEY_TYPE_EDGE_REVERSE);
    framed(&mut key, &src);
    framed(&mut key, &dst);
    framed(&mut key, index_name.as_bytes());

    let (parsed_src_bytes, parsed_dst_bytes, parsed_name) =
        KeyParser::parse_edge_reverse_key_v2(&key).expect("parse_edge_reverse_key_v2 should succeed");
    assert_eq!(parsed_name, index_name);
    assert_eq!(parsed_src_bytes, src);
    assert_eq!(parsed_dst_bytes, dst);
}

#[test]
fn test_parse_vertex_id_from_key_native() {
    let prop_value = ser_str("test_value");
    let vertex_id = 123u64;
    let key = native_forward_key(1, KEY_TYPE_VERTEX_FORWARD, "idx_test", &prop_value, &[vertex_id]);

    let parsed_vid =
        KeyParser::parse_vertex_id_from_key_native(&key).expect("parse_vertex_id_from_key_native should succeed");
    assert_eq!(parsed_vid, vertex_id);
}

#[test]
fn test_parse_edge_ids_from_key_native() {
    let prop_value = ser_str("edge_prop");
    let src = 100u64;
    let dst = 200u64;
    let key = native_forward_key(1, KEY_TYPE_EDGE_FORWARD, "edge_idx", &prop_value, &[src, dst]);

    let (parsed_src, parsed_dst) =
        KeyParser::parse_edge_ids_from_key_native(&key).expect("parse_edge_ids_from_key_native should succeed");
    assert_eq!(parsed_src, src);
    assert_eq!(parsed_dst, dst);
}

#[test]
fn native_edge_key_missing_dst_fails() {
    let key = native_forward_key(1, KEY_TYPE_EDGE_FORWARD, "e", &[1], &[100]);
    let e = KeyParser::parse_edge_ids_from_key_native(&key).unwrap_err();
    assert_eq!(db_message(e), "Invalid edge key: src/dst exceeds key length");
}

#[test]
fn native_vertex_reverse_key_roundtrip() {
    let mut key = 2u64.to_le_bytes().to_vec();
    key.push(KEY_TYPE_VERTEX_REVERSE);
    key.extend_from_slice(&77u64.to_le_bytes());
    framed(&mut key, b"idx");
    let (vid, name) = KeyParser::parse_vertex_reverse_key_native(&key).unwrap();
    assert_eq!(vid, 77);
    assert_eq!(name, "idx");
}

#[test]
fn native_edge_reverse_key_roundtrip() {
    let mut key = 2u64.to_le_bytes().to_vec();
    key.push(KEY_TYPE_EDGE_REVERSE);
    key.extend_from_slice(&5u64.to_le_bytes());
    key.extend_from_slice(&6u64.to_le_bytes());
    framed(&mut key, b"e");
    let (s, d, name) = KeyParser::parse_edge_reverse_key_native(&key).unwrap();
    assert_eq!((s, d), (5, 6));
    assert_eq!(name, "e");
}

#[test]
fn composite_vertex_key_fields() {
    let mut key = 1u64.to_le_bytes().to_vec();
    key.push(KEY_TYPE_VERTEX_FORWARD);
    framed(&mut key, b"idx");
    key.extend_from_slice(&2u32.to_le_bytes());
    framed(&mut key, &[1, 2]);
    framed(&mut key, &[3]);
    framed(&mut key, &[9, 9]);
    assert!(KeyParser::is_composite_key(&key));
    let (fields, vid) = KeyParser::parse_composite_vertex_index_key(&key).unwrap();
    assert_eq!(fields, vec![vec![1, 2], vec![3]]);
    assert_eq!(vid, vec![9, 9]);
}

#[test]
fn test_byte_key_from_vec() {
    let vec = vec![1, 2, 3, 4];
    let key: ByteKey = vec.clone().into();
    assert_eq!(key.0, vec);
}

#[test]
fn test_byte_key_as_ref() {
    let key = ByteKey(vec![1, 2, 3]);
    assert_eq!(key.as_ref(), &[1, 2, 3]);
}

#[test]
fn range_end_of_all_ff_is_all_zero() {
    let end = IndexKeyCodec::build_range_end(&ByteKey(vec![255, 255]));
    assert_eq!(end.0, vec![0, 0]);
    let empty = IndexKeyCodec::build_range_end(&ByteKey(vec![]));
    assert!(empty.0.is_empty());
}
