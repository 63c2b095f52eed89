//! Building the keys of the multi-version secondary index: reverse keys that lead
//! with the vertex, keys with native `u64` vertex ids, and composite keys over
//! several fields. Each layout is the one that `KeyParser` reads back.
use vstd::prelude::*;
use vstd::bytes::*;
use vstd::string::StringSliceAdditionalSpecFns;
use vstd::utf8::*;
use crate::bytes::{framed, append_framed, append_u32_le, append_u64_le, lemma_framed_parts, u32_at, u64_at};
use crate::key_codec::{key_head, ByteKey, KEY_TYPE_VERTEX_FORWARD, KEY_TYPE_VERTEX_REVERSE, has_successor, lemma_head_has_successor};
use crate::key_parser::{
    ParseFailure, parse_vertex_reverse_v2_spec, parse_vertex_id_native_spec, parse_vertex_reverse_native_spec,
    skip_step, frame_step, name_step, fields_step, parse_composite_vertex_spec,
};

verus! {

/// `[space_id][0x01][vid_len][vid][name_len][name]`.
pub open spec fn vertex_reverse_key_v2_spec(space_id: u64, vid: Seq<u8>, name: Seq<u8>) -> Seq<u8> {
    key_head(space_id, KEY_TYPE_VERTEX_REVERSE) + framed(vid) + framed(name)
}

/// `[space_id][0x01][vid_len][vid]`: the prefix of every v2 reverse key of a vertex.
pub open spec fn vertex_reverse_prefix_v2_spec(space_id: u64, vid: Seq<u8>) -> Seq<u8> {
    key_head(space_id, KEY_TYPE_VERTEX_REVERSE) + framed(vid)
}

/// `[space_id][0x03][name_len][name][prop_len][prop][vid: u64]`.
pub open spec fn vertex_index_key_native_spec(space_id: u64, name: Seq<u8>, prop: Seq<u8>, vid: u64) -> Seq<u8> {
    key_head(space_id, KEY_TYPE_VERTEX_FORWARD) + framed(name) + framed(prop) + spec_u64_to_le_bytes(vid)
}

/// `[space_id][0x01][vid: u64][name_len][name]`.
pub open spec fn vertex_reverse_key_native_spec(space_id: u64, vid: u64, name: Seq<u8>) -> Seq<u8> {
    key_head(space_id, KEY_TYPE_VERTEX_REVERSE) + spec_u64_to_le_bytes(vid) + framed(name)
}

/// `[space_id][0x01][vid: u64]`: the prefix of every native reverse key of a vertex.
pub open spec fn vertex_reverse_prefix_native_spec(space_id: u64, vid: u64) -> Seq<u8> {
    key_head(space_id, KEY_TYPE_VERTEX_REVERSE) + spec_u64_to_le_bytes(vid)
}

/// The framed fields one after the other.
pub open spec fn framed_all(fields: Seq<Seq<u8>>) -> Seq<u8>
    decreases fields.len(),
{
    if fields.len() == 0 {
        Seq::empty()
    } else {
        framed_all(fields.drop_last()) + framed(fields.last())
    }
}

/// `[space_id][0x03][name_len][name][field_count][field_len][field]...[vid_len][vid]`.
pub open spec fn composite_vertex_index_key_spec(
    space_id: u64,
    name: Seq<u8>,
    fields: Seq<Seq<u8>>,
    vid: Seq<u8>,
) -> Seq<u8> {
    key_head(space_id, KEY_TYPE_VERTEX_FORWARD) + framed(name) + spec_u32_to_le_bytes(fields.len() as u32)
        + framed_all(fields) + framed(vid)
}

fn head(space_id: u64, key_type: u8) -> (r: Vec<u8>)
    ensures
        r@ == key_head(space_id, key_type),
{
    let mut key: Vec<u8> = Vec::new();
    append_u64_le(&mut key, space_id);
    key.push(key_type);
    key
}

/// Builder of the keys of the multi-version secondary index.
pub struct KeyBuilder;

impl KeyBuilder {
    /// The v2 reverse key of a vertex index entry, from the serialized vertex id.
    pub fn build_vertex_reverse_key_v2(space_id: u64, vertex_id: &[u8], index_name: &str) -> (r: ByteKey)
        ensures
            r@ == vertex_reverse_key_v2_spec(space_id, vertex_id@, index_name.spec_bytes()),
    {
        let mut key = head(space_id, KEY_TYPE_VERTEX_REVERSE);
        append_framed(&mut key, vertex_id);
        append_framed(&mut key, index_name.as_bytes());
        ByteKey(key)
    }

    /// The prefix shared by the v2 reverse keys of one vertex.
    pub fn build_vertex_reverse_prefix_v2(space_id: u64, vertex_id: &[u8]) -> (r: ByteKey)
        ensures
            r@ == vertex_reverse_prefix_v2_spec(space_id, vertex_id@),
            has_successor(r@),
    {
        proof {
            lemma_head_has_successor(space_id, KEY_TYPE_VERTEX_REVERSE, framed(vertex_id@));
        }
        let mut key = head(space_id, KEY_TYPE_VERTEX_REVERSE);
        append_framed(&mut key, vertex_id);
        ByteKey(key)
    }

    /// The forward key of a vertex index entry with a native vertex id.
    pub fn build_vertex_index_key_native(space_id: u64, index_name: &str, prop_value: &[u8], vertex_id: u64) -> (r:
        ByteKey)
        ensures
            r@ == vertex_index_key_native_spec(space_id, index_name.spec_bytes(), prop_value@, vertex_id),
    {
        let mut key = head(space_id, KEY_TYPE_VERTEX_FORWARD);
        append_framed(&mut key, index_name.as_bytes());
        append_framed(&mut key, prop_value);
        append_u64_le(&mut key, vertex_id);
        ByteKey(key)
    }

    /// The reverse key of a vertex index entry with a native vertex id.
    pub fn build_vertex_reverse_key_native(space_id: u64, vertex_id: u64, index_name: &str) -> (r: ByteKey)
        ensures
            r@ == vertex_reverse_key_native_spec(space_id, vertex_id, index_name.spec_bytes()),
    {
        let mut key = head(space_id, KEY_TYPE_VERTEX_REVERSE);
        append_u64_le(&mut key, vertex_id);
        append_framed(&mut key, index_name.as_bytes());
        ByteKey(key)
    }

    /// The prefix shared by the native reverse keys of one vertex.
    pub fn build_vertex_reverse_prefix_native(space_id: u64, vertex_id: u64) -> (r: ByteKey)
        ensures
            r@ == vertex_reverse_prefix_native_spec(space_id, vertex_id),
            has_successor(r@),
    {
        proof {
            lemma_head_has_successor(space_id, KEY_TYPE_VERTEX_REVERSE, spec_u64_to_le_bytes(vertex_id));
        }
        let mut key = head(space_id, KEY_TYPE_VERTEX_REVERSE);
        append_u64_le(&mut key, vertex_id);
        ByteKey(key)
    }

    /// The forward key of a composite vertex index entry, from the serialized field
    /// values and vertex id. The field count is stored in 32 bits.
    pub fn build_composite_vertex_index_key(
        space_id: u64,
        index_name: &str,
        field_values: &[Vec<u8>],
        vertex_id: &[u8],
    ) -> (r: ByteKey)
        ensures
            r@ == composite_vertex_index_key_spec(
                space_id,
                index_name.spec_bytes(),
                field_values@.map_values(|f: Vec<u8>| f@),
                vertex_id@,
            ),
    {
        let ghost fs = field_values@.map_values(|f: Vec<u8>| f@);
        let mut key = head(space_id, KEY_TYPE_VERTEX_FORWARD);
        append_framed(&mut key, index_name.as_bytes());
        append_u32_le(&mut key, field_values.len() as u32);
        let ghost base = key@;
        let mut i: usize = 0;
        while i < field_values.len()
            invariant
                i <= field_values@.len(),
                fs == field_values@.map_values(|f: Vec<u8>| f@),
                key@ == base + framed_all(fs.subrange(0, i as int)),
            decreases field_values@.len() - i,
        {
            assert(fs.subrange(0, i as int + 1).drop_last() =~= fs.subrange(0, i as int));
            assert(fs[i as int] == field_values@[i as int]@);
            append_framed(&mut key, field_values[i].as_slice());
            assert(key@ =~= base + framed_all(fs.subrange(0, i as int + 1)));
            i = i + 1;
        }
        assert(fs.subrange(0, i as int) =~= fs);
        append_framed(&mut key, vertex_id);
        ByteKey(key)
    }
}

/// Parsing a v2 reverse key gives back the vertex id and index name it was built with.
pub proof fn lemma_vertex_reverse_key_v2_roundtrip(space_id: u64, vid: Seq<u8>, name: Seq<char>)
    requires
        vid.len() <= u32::MAX,
        encode_utf8(name).len() <= u32::MAX,
    ensures
        parse_vertex_reverse_v2_spec(vertex_reverse_key_v2_spec(space_id, vid, encode_utf8(name))) == Ok::<
            (Seq<u8>, Seq<char>),
            ParseFailure,
        >((vid, name)),
{
    lemma_auto_spec_u64_to_from_le_bytes();
    let h = key_head(space_id, KEY_TYPE_VERTEX_REVERSE);
    let nb = encode_utf8(name);
    let k = vertex_reverse_key_v2_spec(space_id, vid, nb);
    assert(h.len() == 9);
    lemma_framed_parts(h, vid, framed(nb));
    assert(k =~= h + framed(vid) + framed(nb));
    lemma_framed_parts(h + framed(vid), nb, Seq::empty());
    assert(k =~= h + framed(vid) + framed(nb) + Seq::<u8>::empty());
    encode_utf8_valid_utf8(name);
    encode_utf8_decode_utf8(name);
    let a: int = 13 + vid.len() as int;
    assert(k.subrange(a + 4, a + 4 + nb.len() as int) == nb);
}

/// Parsing a native forward key gives back the vertex id it was built with.
pub proof fn lemma_vertex_index_key_native_roundtrip(space_id: u64, name: Seq<u8>, prop: Seq<u8>, vid: u64)
    requires
        name.len() <= u32::MAX,
        prop.len() <= u32::MAX,
    ensures
        parse_vertex_id_native_spec(vertex_index_key_native_spec(space_id, name, prop, vid)) == Ok::<
            u64,
            ParseFailure,
        >(vid),
{
    lemma_auto_spec_u64_to_from_le_bytes();
    let h = key_head(space_id, KEY_TYPE_VERTEX_FORWARD);
    let t = spec_u64_to_le_bytes(vid);
    let k = vertex_index_key_native_spec(space_id, name, prop, vid);
    assert(h.len() == 9);
    lemma_framed_parts(h, name, framed(prop) + t);
    assert(k =~= h + framed(name) + (framed(prop) + t));
    lemma_framed_parts(h + framed(name), prop, t);
    assert(k =~= h + framed(name) + framed(prop) + t);
    let p2: int = 17 + name.len() as int + prop.len() as int;
    assert(k.subrange(p2, p2 + 8) =~= t);
}

/// Parsing a native reverse key gives back the vertex id and index name it was built with.
pub proof fn lemma_vertex_reverse_key_native_roundtrip(space_id: u64, vid: u64, name: Seq<char>)
    requires
        encode_utf8(name).len() <= u32::MAX,
    ensures
        parse_vertex_reverse_native_spec(vertex_reverse_key_native_spec(space_id, vid, encode_utf8(name))) == Ok::<
            (u64, Seq<char>),
            ParseFailure,
        >((vid, name)),
{
    lemma_auto_spec_u64_to_from_le_bytes();
    let h = key_head(space_id, KEY_TYPE_VERTEX_REVERSE);
    let t = spec_u64_to_le_bytes(vid);
    let nb = encode_utf8(name);
    let k = vertex_reverse_key_native_spec(space_id, vid, nb);
    assert(h.len() == 9);
    lemma_framed_parts(h + t, nb, Seq::empty());
    assert(k =~= (h + t) + framed(nb) + Seq::<u8>::empty());
    assert(k.subrange(9, 17) =~= t);
    encode_utf8_valid_utf8(name);
    encode_utf8_decode_utf8(name);
    assert(k.subrange(21, 21 + nb.len() as int) == nb);
}

/// Every field fits its 32-bit length field.
pub open spec fn fields_fit(fields: Seq<Seq<u8>>) -> bool {
    forall|i: int| 0 <= i < fields.len() ==> #[trigger] fields[i].len() <= u32::MAX
}

proof fn lemma_framed_all_front(fields: Seq<Seq<u8>>)
    requires
        fields.len() > 0,
    ensures
        framed_all(fields) == framed(fields[0]) + framed_all(fields.drop_first()),
    decreases fields.len(),
{
    if fields.len() == 1 {
        assert(fields.drop_first() =~= Seq::<Seq<u8>>::empty());
        assert(fields.drop_last() =~= Seq::<Seq<u8>>::empty());
        assert(framed_all(fields.drop_last()) =~= Seq::<u8>::empty());
        assert(framed_all(fields.drop_first()) =~= Seq::<u8>::empty());
        assert(framed_all(fields) =~= framed(fields[0]));
        assert(framed(fields[0]) + framed_all(fields.drop_first()) =~= framed(fields[0]));
    } else {
        let dl = fields.drop_last();
        lemma_framed_all_front(dl);
        assert(fields.drop_first().drop_last() =~= dl.drop_first());
        assert(fields.drop_first().last() == fields.last());
        assert(dl[0] == fields[0]);
        assert(framed_all(fields) =~= framed(fields[0]) + framed_all(fields.drop_first()));
    }
}

proof fn lemma_fields_step_framed(pre: Seq<u8>, fields: Seq<Seq<u8>>, post: Seq<u8>, missing: Seq<char>, exceeds: Seq<char>)
    requires
        fields_fit(fields),
    ensures
        fields_step(pre + framed_all(fields) + post, pre.len() as int, fields.len(), missing, exceeds) == Ok::<
            (Seq<Seq<u8>>, int),
            ParseFailure,
        >((fields, (pre.len() + framed_all(fields).len()) as int)),
    decreases fields.len(),
{
    let k = pre + framed_all(fields) + post;
    if fields.len() == 0 {
        assert(fields =~= Seq::<Seq<u8>>::empty());
    } else {
        lemma_framed_all_front(fields);
        let f0 = fields[0];
        let rest = fields.drop_first();
        assert(f0.len() <= u32::MAX);
        assert(fields_fit(rest)) by {
            assert forall|i: int| 0 <= i < rest.len() implies #[trigger] rest[i].len() <= u32::MAX by {
                assert(rest[i] == fields[i + 1]);
            }
        }
        lemma_framed_parts(pre, f0, framed_all(rest) + post);
        assert(k =~= pre + framed(f0) + (framed_all(rest) + post));
        lemma_fields_step_framed(pre + framed(f0), rest, post, missing, exceeds);
        assert(pre + framed(f0) + framed_all(rest) + post =~= k);
        assert(seq![k.subrange(pre.len() + 4 as int, pre.len() + 4 + f0.len() as int)] + rest =~= fields);
    }
}

/// Reading back a composite vertex key gives the field values and vertex id it was
/// built from, when the name, the field count and each field fit their 32-bit
/// length fields.
pub proof fn lemma_composite_vertex_key_roundtrip(space_id: u64, name: Seq<u8>, fields: Seq<Seq<u8>>, vid: Seq<u8>)
    requires
        name.len() <= u32::MAX,
        fields.len() <= u32::MAX,
        fields_fit(fields),
        vid.len() <= u32::MAX,
    ensures
        parse_composite_vertex_spec(composite_vertex_index_key_spec(space_id, name, fields, vid)) == Ok::<
            (Seq<Seq<u8>>, Seq<u8>),
            ParseFailure,
        >((fields, vid)),
        composite_vertex_index_key_spec(space_id, name, fields, vid).len() >= 17,
{
    lemma_auto_spec_u64_to_from_le_bytes();
    lemma_auto_spec_u32_to_from_le_bytes();
    let h = key_head(space_id, KEY_TYPE_VERTEX_FORWARD);
    let n = spec_u32_to_le_bytes(fields.len() as u32);
    let k = composite_vertex_index_key_spec(space_id, name, fields, vid);
    assert(h.len() == 9);
    assert(n.len() == 4);
    let body = n + framed_all(fields) + framed(vid);
    lemma_framed_parts(h, name, body);
    assert(k =~= h + framed(name) + body);
    let p1: int = 13 + name.len() as int;
    let pre = h + framed(name) + n;
    assert(k.subrange(p1, p1 + 4) =~= n);
    assert(u32_at(k, p1) == fields.len());
    lemma_fields_step_framed(pre, fields, framed(vid), "Invalid composite vertex key: missing field_len"@,
        "Invalid composite vertex key: field exceeds key length"@);
    assert(k =~= pre + framed_all(fields) + framed(vid));
    let q = pre.len() + framed_all(fields).len();
    lemma_framed_parts(pre + framed_all(fields), vid, Seq::empty());
    assert(k =~= pre + framed_all(fields) + framed(vid) + Seq::<u8>::empty());
}

} // verus!
