//! Building and parsing of index keys.
//!
//! Forward keys lead from a property value to the indexed element, reverse keys
//! from the element back to its index. Property values and element ids are kept
//! in keys as the bytes that their serializer produced; serializing them is the
//! caller's part.
use vstd::prelude::*;
use vstd::bytes::*;
use vstd::utf8::*;
use vstd::string::StringSliceAdditionalSpecFns;
use crate::bytes::{framed, append_u64_le, append_framed, append_bytes, lemma_framed_parts, u32_at};
use crate::error::StorageError;
use crate::key_parser::{
    KeyParser, ParseFailure, matches_outcome, parse_vertex_id_spec, parse_vertex_reverse_spec,
    parse_edge_reverse_spec, key_len_ok, skip_step, frame_step, name_step,
};

verus! {

/// Key type of a vertex reverse key.
pub const KEY_TYPE_VERTEX_REVERSE: u8 = 0x01;
/// Key type of an edge reverse key.
pub const KEY_TYPE_EDGE_REVERSE: u8 = 0x02;
/// Key type of a vertex forward key.
pub const KEY_TYPE_VERTEX_FORWARD: u8 = 0x03;
/// Key type of an edge forward key.
pub const KEY_TYPE_EDGE_FORWARD: u8 = 0x04;

/// An index key as raw bytes.
#[derive(Debug, Clone)]
pub struct ByteKey(pub Vec<u8>);

impl View for ByteKey {
    type V = Seq<u8>;

    open spec fn view(&self) -> Seq<u8> {
        self.0@
    }
}

impl ByteKey {
    /// The bytes of the key.
    pub fn as_ref(&self) -> (r: &[u8])
        ensures
            r@ == self@,
    {
        self.0.as_slice()
    }
}

impl From<Vec<u8>> for ByteKey {
    fn from(v: Vec<u8>) -> (r: Self) {
        ByteKey(v)
    }
}

impl vstd::std_specs::convert::FromSpecImpl<Vec<u8>> for ByteKey {
    open spec fn obeys_from_spec() -> bool {
        true
    }

    open spec fn from_spec(v: Vec<u8>) -> ByteKey {
        ByteKey(v)
    }
}

impl From<ByteKey> for Vec<u8> {
    fn from(key: ByteKey) -> (r: Self) {
        key.0
    }
}

impl vstd::std_specs::convert::FromSpecImpl<ByteKey> for Vec<u8> {
    open spec fn obeys_from_spec() -> bool {
        true
    }

    open spec fn from_spec(key: ByteKey) -> Vec<u8> {
        key.0
    }
}

impl Default for ByteKey {
    fn default() -> (r: Self)
        ensures
            r@.len() == 0,
    {
        ByteKey(Vec::new())
    }
}

/// The space id and the key type that start every key.
pub open spec fn key_head(space_id: u64, key_type: u8) -> Seq<u8> {
    spec_u64_to_le_bytes(space_id) + seq![key_type]
}

/// `[space_id][0x03][name_len][name][prop_len][prop][vid_len][vid]`.
pub open spec fn vertex_index_key_spec(space_id: u64, name: Seq<u8>, prop: Seq<u8>, vid: Seq<u8>) -> Seq<u8> {
    key_head(space_id, KEY_TYPE_VERTEX_FORWARD) + framed(name) + framed(prop) + framed(vid)
}

/// `[space_id][key_type][name_len][name]`.
pub open spec fn index_prefix_spec(space_id: u64, key_type: u8, name: Seq<u8>) -> Seq<u8> {
    key_head(space_id, key_type) + framed(name)
}

/// `[space_id][0x01][name_len][name][vid_len][vid]`.
pub open spec fn vertex_reverse_key_spec(space_id: u64, name: Seq<u8>, vid: Seq<u8>) -> Seq<u8> {
    key_head(space_id, KEY_TYPE_VERTEX_REVERSE) + framed(name) + framed(vid)
}

/// `[space_id][0x04][name_len][name][prop_len][prop][src_len][src][dst_len][dst]`.
pub open spec fn edge_index_key_spec(
    space_id: u64,
    name: Seq<u8>,
    prop: Seq<u8>,
    src: Seq<u8>,
    dst: Seq<u8>,
) -> Seq<u8> {
    key_head(space_id, KEY_TYPE_EDGE_FORWARD) + framed(name) + framed(prop) + framed(src) + framed(dst)
}

/// `[space_id][0x02][name_len][name][src_len][src]`.
pub open spec fn edge_reverse_key_spec(space_id: u64, name: Seq<u8>, src: Seq<u8>) -> Seq<u8> {
    key_head(space_id, KEY_TYPE_EDGE_REVERSE) + framed(name) + framed(src)
}

/// Whether some key follows every key with prefix `p`: `p` has a byte below `0xff`.
/// A prefix of `0xff` bytes alone (the empty one too) is followed by no key.
pub open spec fn has_successor(p: Seq<u8>) -> bool {
    exists|j: int| 0 <= j < p.len() && p[j] != 255
}

/// A key head, and any key that starts with one, has a successor when its type is not `0xff`.
pub proof fn lemma_head_has_successor(space_id: u64, key_type: u8, rest: Seq<u8>)
    requires
        key_type != 255,
    ensures
        has_successor(key_head(space_id, key_type) + rest),
{
    lemma_auto_spec_u64_to_from_le_bytes();
    let k = key_head(space_id, key_type) + rest;
    assert(k[8] == key_type);
}

/// A prefix of `0xff` bytes alone ends at all zeros.
proof fn lemma_range_end_all_ff(p: Seq<u8>)
    requires
        !has_successor(p),
    ensures
        range_end_spec(p) == Seq::new(p.len(), |i: int| 0u8),
    decreases p.len(),
{
    if p.len() > 0 {
        assert(p[p.len() - 1] == 255);
        assert(!has_successor(p.drop_last())) by {
            if has_successor(p.drop_last()) {
                let j = choose|j: int| 0 <= j < p.drop_last().len() && p.drop_last()[j] != 255;
                assert(p[j] != 255);
            }
        }
        lemma_range_end_all_ff(p.drop_last());
        assert(range_end_spec(p) =~= Seq::new(p.len(), |i: int| 0u8));
    } else {
        assert(range_end_spec(p) =~= Seq::new(p.len(), |i: int| 0u8));
    }
}

/// The key that follows every key with prefix `p` in byte order: `p` read as a
/// big-endian number plus one, keeping its length.
pub open spec fn range_end_spec(p: Seq<u8>) -> Seq<u8>
    decreases p.len(),
{
    if p.len() == 0 {
        p
    } else if p.last() == 255 {
        range_end_spec(p.drop_last()).push(0)
    } else {
        p.drop_last().push((p.last() + 1) as u8)
    }
}

/// Strict byte-wise lexicographic order, a proper prefix coming first.
pub open spec fn lex_lt(a: Seq<u8>, b: Seq<u8>) -> bool
    decreases a.len(),
{
    if a.len() == 0 {
        b.len() > 0
    } else if b.len() == 0 {
        false
    } else if a[0] != b[0] {
        a[0] < b[0]
    } else {
        lex_lt(a.drop_first(), b.drop_first())
    }
}

fn start_key(space_id: u64, key_type: u8) -> (r: Vec<u8>)
    ensures
        r@ == key_head(space_id, key_type),
{
    let mut key: Vec<u8> = Vec::new();
    append_u64_le(&mut key, space_id);
    key.push(key_type);
    proof {
        assert(key@ =~= key_head(space_id, key_type));
    }
    key
}

/// Builder and parser of index keys.
pub struct IndexKeyCodec;

impl IndexKeyCodec {
    /// The forward key of a vertex index entry, from the serialized property value and vertex id.
    pub fn build_vertex_index_key(space_id: u64, index_name: &str, prop_value: &[u8], vertex_id: &[u8]) -> (r:
        ByteKey)
        ensures
            r@ == vertex_index_key_spec(space_id, index_name.spec_bytes(), prop_value@, vertex_id@),
    {
        let mut key = start_key(space_id, KEY_TYPE_VERTEX_FORWARD);
        append_framed(&mut key, index_name.as_bytes());
        append_framed(&mut key, prop_value);
        append_framed(&mut key, vertex_id);
        ByteKey(key)
    }

    /// The prefix shared by all forward keys of one vertex index.
    pub fn build_vertex_index_prefix(space_id: u64, index_name: &str) -> (r: ByteKey)
        ensures
            r@ == index_prefix_spec(space_id, KEY_TYPE_VERTEX_FORWARD, index_name.spec_bytes()),
            has_successor(r@),
    {
        proof {
            lemma_head_has_successor(space_id, KEY_TYPE_VERTEX_FORWARD, framed(index_name.spec_bytes()));
            assert(key_head(space_id, KEY_TYPE_VERTEX_FORWARD) + Seq::<u8>::empty() =~= key_head(space_id, KEY_TYPE_VERTEX_FORWARD));
        }
        let mut key = start_key(space_id, KEY_TYPE_VERTEX_FORWARD);
        append_framed(&mut key, index_name.as_bytes());
        ByteKey(key)
    }

    /// The serialized vertex id stored at the end of a vertex forward key.
    pub fn parse_vertex_id_from_key(key_bytes: &[u8]) -> (r: Result<Vec<u8>, StorageError>)
        requires
            key_len_ok(key_bytes@),
        ensures
            matches_outcome(r, parse_vertex_id_spec(key_bytes@)),
    {
        KeyParser::parse_vertex_id_from_key(key_bytes)
    }

    /// The reverse key of a vertex index entry, from the serialized vertex id.
    pub fn build_vertex_reverse_key(space_id: u64, index_name: &str, vertex_id: &[u8]) -> (r: ByteKey)
        ensures
            r@ == vertex_reverse_key_spec(space_id, index_name.spec_bytes(), vertex_id@),
    {
        let mut key = start_key(space_id, KEY_TYPE_VERTEX_REVERSE);
        append_framed(&mut key, index_name.as_bytes());
        append_framed(&mut key, vertex_id);
        ByteKey(key)
    }

    /// The prefix shared by all vertex reverse keys of a space.
    pub fn build_vertex_reverse_prefix(space_id: u64) -> (r: ByteKey)
        ensures
            r@ == key_head(space_id, KEY_TYPE_VERTEX_REVERSE),
            has_successor(r@),
    {
        proof {
            lemma_head_has_successor(space_id, KEY_TYPE_VERTEX_REVERSE, Seq::<u8>::empty());
            assert(key_head(space_id, KEY_TYPE_VERTEX_REVERSE) + Seq::<u8>::empty() =~= key_head(space_id, KEY_TYPE_VERTEX_REVERSE));
        }
        ByteKey(start_key(space_id, KEY_TYPE_VERTEX_REVERSE))
    }

    /// The index name and the serialized vertex id of a vertex reverse key.
    pub fn parse_vertex_reverse_key(key_bytes: &[u8]) -> (r: Result<(String, Vec<u8>), StorageError>)
        requires
            key_len_ok(key_bytes@),
        ensures
            matches_outcome(r, parse_vertex_reverse_spec(key_bytes@)),
    {
        KeyParser::parse_vertex_reverse_key(key_bytes)
    }

    /// The forward key of an edge index entry, from the serialized property value and end points.
    pub fn build_edge_index_key(
        space_id: u64,
        index_name: &str,
        prop_value: &[u8],
        src: &[u8],
        dst: &[u8],
    ) -> (r: ByteKey)
        ensures
            r@ == edge_index_key_spec(space_id, index_name.spec_bytes(), prop_value@, src@, dst@),
    {
        let mut key = start_key(space_id, KEY_TYPE_EDGE_FORWARD);
        append_framed(&mut key, index_name.as_bytes());
        append_framed(&mut key, prop_value);
        append_framed(&mut key, src);
        append_framed(&mut key, dst);
        ByteKey(key)
    }

    /// The prefix shared by all forward keys of one edge index.
    pub fn build_edge_index_prefix(space_id: u64, index_name: &str) -> (r: ByteKey)
        ensures
            r@ == index_prefix_spec(space_id, KEY_TYPE_EDGE_FORWARD, index_name.spec_bytes()),
            has_successor(r@),
    {
        proof {
            lemma_head_has_successor(space_id, KEY_TYPE_EDGE_FORWARD, framed(index_name.spec_bytes()));
            assert(key_head(space_id, KEY_TYPE_EDGE_FORWARD) + Seq::<u8>::empty() =~= key_head(space_id, KEY_TYPE_EDGE_FORWARD));
        }
        let mut key = start_key(space_id, KEY_TYPE_EDGE_FORWARD);
        append_framed(&mut key, index_name.as_bytes());
        ByteKey(key)
    }

    /// The reverse key of an edge index entry, from the serialized source id.
    pub fn build_edge_reverse_key(space_id: u64, index_name: &str, src: &[u8]) -> (r: ByteKey)
        ensures
            r@ == edge_reverse_key_spec(space_id, index_name.spec_bytes(), src@),
    {
        let mut key = start_key(space_id, KEY_TYPE_EDGE_REVERSE);
        append_framed(&mut key, index_name.as_bytes());
        append_framed(&mut key, src);
        ByteKey(key)
    }

    /// The prefix shared by all edge reverse keys of a space.
    pub fn build_edge_reverse_prefix(space_id: u64) -> (r: ByteKey)
        ensures
            r@ == key_head(space_id, KEY_TYPE_EDGE_REVERSE),
            has_successor(r@),
    {
        proof {
            lemma_head_has_successor(space_id, KEY_TYPE_EDGE_REVERSE, Seq::<u8>::empty());
            assert(key_head(space_id, KEY_TYPE_EDGE_REVERSE) + Seq::<u8>::empty() =~= key_head(space_id, KEY_TYPE_EDGE_REVERSE));
        }
        ByteKey(start_key(space_id, KEY_TYPE_EDGE_REVERSE))
    }

    /// The exclusive end of a range scan over the keys that start with `prefix`.
    /// A prefix of `0xff` bytes alone has no key after all of its keys; its end key
    /// wraps to all zeros, of the same length.
    pub fn build_range_end(prefix: &ByteKey) -> (r: ByteKey)
        ensures
            r@ == range_end_spec(prefix@),
            !has_successor(prefix@) ==> r@ == Seq::new(prefix@.len(), |i: int| 0u8),
            has_successor(prefix@) ==> lex_lt(prefix@, r@),
            has_successor(prefix@) ==> forall|k: Seq<u8>|
                prefix@.len() <= k.len() && #[trigger] k.subrange(0, prefix@.len() as int) == prefix@ ==> !lex_lt(
                    k,
                    prefix@,
                ) && lex_lt(k, r@),
    {
        proof {
            if !has_successor(prefix@) {
                lemma_range_end_all_ff(prefix@);
            } else {
            assert(prefix@.subrange(0, prefix@.len() as int) =~= prefix@);
            lemma_range_covers_prefix(prefix@, prefix@);
            assert forall|k: Seq<u8>|
                prefix@.len() <= k.len() && #[trigger] k.subrange(0, prefix@.len() as int) == prefix@ implies !lex_lt(
                    k,
                    prefix@,
                ) && lex_lt(k, range_end_spec(prefix@)) by {
                lemma_range_covers_prefix(prefix@, k);
            }
            }
        }
        let mut end = prefix.0.clone();
        let ghost p = prefix@;
        let mut i: usize = end.len();
        proof {
            assert(end@ =~= p);
            assert(p.subrange(0, i as int) =~= p);
        }
        loop
            invariant_except_break
                i <= p.len(),
                end@.len() == p.len(),
                end@.subrange(0, i as int) == p.subrange(0, i as int),
                range_end_spec(p) == range_end_spec(p.subrange(0, i as int)) + end@.subrange(i as int, p.len() as int),
                forall|j: int| i <= j < p.len() ==> end@[j] == 0,
            ensures
                end@ == range_end_spec(p),
            decreases i,
        {
            if i == 0 {
                proof {
                    assert(p.subrange(0, 0) =~= Seq::<u8>::empty());
                    assert(end@.subrange(0, p.len() as int) =~= end@);
                }
                break;
            }
            i = i - 1;
            let ghost q = p.subrange(0, i as int + 1);
            assert(q.drop_last() =~= p.subrange(0, i as int));
            assert(q.last() == end@[i as int]);
            if end[i] == 255 {
                end.set(i, 0);
                proof {
                    assert(range_end_spec(q) == range_end_spec(p.subrange(0, i as int)).push(0));
                    assert(end@.subrange(0, i as int) =~= p.subrange(0, i as int));
                    assert(seq![0u8] + end@.subrange(i as int + 1, p.len() as int) =~= end@.subrange(i as int, p.len() as int));
                    assert(range_end_spec(p) =~= range_end_spec(p.subrange(0, i as int)) + end@.subrange(i as int, p.len() as int));
                }
            } else {
                let v = end[i];
                end.set(i, v + 1);
                proof {
                    assert(range_end_spec(q) == p.subrange(0, i as int).push((v + 1) as u8));
                    assert(end@ =~= p.subrange(0, i as int).push((v + 1) as u8) + end@.subrange(i as int + 1, p.len() as int));
                }
                break;
            }
        }
        ByteKey(end)
    }

    /// The index name and the serialized source id of an edge reverse key.
    pub fn parse_edge_reverse_key(key_bytes: &[u8]) -> (r: Result<(String, Vec<u8>), StorageError>)
        requires
            key_len_ok(key_bytes@),
        ensures
            matches_outcome(r, parse_edge_reverse_spec(key_bytes@)),
    {
        KeyParser::parse_edge_reverse_key(key_bytes)
    }
}

proof fn lemma_range_end_len(p: Seq<u8>)
    ensures
        range_end_spec(p).len() == p.len(),
    decreases p.len(),
{
    if p.len() > 0 && p.last() == 255 {
        lemma_range_end_len(p.drop_last());
    }
}

proof fn lemma_lex_common_prefix(c: Seq<u8>, x: Seq<u8>, y: Seq<u8>)
    ensures
        lex_lt(c + x, c + y) == lex_lt(x, y),
    decreases c.len(),
{
    if c.len() > 0 {
        assert((c + x).drop_first() =~= c.drop_first() + x);
        assert((c + y).drop_first() =~= c.drop_first() + y);
        lemma_lex_common_prefix(c.drop_first(), x, y);
    } else {
        assert(c + x =~= x);
        assert(c + y =~= y);
    }
}

proof fn lemma_lex_extend_right(x: Seq<u8>, e: Seq<u8>, t: Seq<u8>)
    requires
        lex_lt(x, e),
        x.len() >= e.len(),
    ensures
        lex_lt(x, e + t),
    decreases e.len(),
{
    if x.len() > 0 && e.len() > 0 {
        assert((e + t)[0] == e[0]);
        if x[0] == e[0] {
            assert((e + t).drop_first() =~= e.drop_first() + t);
            lemma_lex_extend_right(x.drop_first(), e.drop_first(), t);
        }
    }
}

proof fn lemma_prefix_not_below(k: Seq<u8>, p: Seq<u8>)
    requires
        p.len() <= k.len(),
        k.subrange(0, p.len() as int) == p,
    ensures
        !lex_lt(k, p),
    decreases p.len(),
{
    if p.len() > 0 {
        assert(k[0] == p[0]);
        assert(k.drop_first().subrange(0, p.drop_first().len() as int) =~= p.drop_first());
        lemma_prefix_not_below(k.drop_first(), p.drop_first());
    }
}

/// A range scan from a prefix to its range end sees every key that starts with the
/// prefix: such a key is not below the prefix and is below the range end. This
/// holds for every prefix with a byte other than `0xff`; an all-`0xff` prefix has an
/// all-zero range end, below every key that starts with it.
pub proof fn lemma_range_covers_prefix(p: Seq<u8>, k: Seq<u8>)
    requires
        p.len() <= k.len(),
        k.subrange(0, p.len() as int) == p,
        exists|j: int| 0 <= j < p.len() && p[j] != 255,
    ensures
        !lex_lt(k, p),
        lex_lt(k, range_end_spec(p)),
    decreases p.len(),
{
    lemma_prefix_not_below(k, p);
    let n = p.len() as int;
    let c = p.drop_last();
    if p.last() != 255 {
        assert(k =~= c + k.subrange(n - 1, k.len() as int));
        assert(range_end_spec(p) =~= c + seq![(p.last() + 1) as u8]);
        lemma_lex_common_prefix(c, k.subrange(n - 1, k.len() as int), seq![(p.last() + 1) as u8]);
        assert(k.subrange(n - 1, k.len() as int)[0] == p.last());
    } else {
        let j = choose|j: int| 0 <= j < p.len() && p[j] != 255;
        assert(j < n - 1);
        assert(c[j] != 255);
        assert(k.subrange(0, c.len() as int) =~= c);
        lemma_range_covers_prefix(c, k);
        lemma_range_end_len(c);
        assert(range_end_spec(p) == range_end_spec(c) + seq![0u8]);
        lemma_lex_extend_right(k, range_end_spec(c), seq![0u8]);
    }
}

/// Parsing a vertex forward key gives back the vertex id it was built with.
pub proof fn lemma_vertex_index_key_roundtrip(space_id: u64, name: Seq<u8>, prop: Seq<u8>, vid: Seq<u8>)
    requires
        name.len() <= u32::MAX,
        prop.len() <= u32::MAX,
        vid.len() <= u32::MAX,
    ensures
        parse_vertex_id_spec(vertex_index_key_spec(space_id, name, prop, vid)) == Ok::<Seq<u8>, ParseFailure>(vid),
{
    lemma_auto_spec_u64_to_from_le_bytes();
    let h = key_head(space_id, KEY_TYPE_VERTEX_FORWARD);
    let k = vertex_index_key_spec(space_id, name, prop, vid);
    assert(h.len() == 9);
    lemma_framed_parts(h, name, framed(prop) + framed(vid));
    assert(k =~= h + framed(name) + (framed(prop) + framed(vid)));
    let p1: int = 13 + name.len() as int;
    assert(skip_step(k, 9, "Invalid key: too short"@) == Ok::<int, ParseFailure>(p1));
    lemma_framed_parts(h + framed(name), prop, framed(vid));
    assert(k =~= h + framed(name) + framed(prop) + framed(vid));
    let p2: int = p1 + 4 + prop.len();
    assert(skip_step(k, p1, "Invalid key: missing prop_value_len"@) == Ok::<int, ParseFailure>(p2));
    lemma_framed_parts(h + framed(name) + framed(prop), vid, Seq::empty());
    assert(k =~= h + framed(name) + framed(prop) + framed(vid) + Seq::<u8>::empty());
}

proof fn lemma_name_then_id(pre: Seq<u8>, name: Seq<char>, id: Seq<u8>, m1: Seq<char>, m2: Seq<char>, m3: Seq<char>, m4: Seq<char>)
    requires
        pre.len() == 9,
        encode_utf8(name).len() <= u32::MAX,
        id.len() <= u32::MAX,
    ensures
        ({
            let k = pre + framed(encode_utf8(name)) + framed(id);
            let n = encode_utf8(name).len() as int;
            &&& frame_step(k, 9, m1, m2) == Ok::<(int, int), ParseFailure>((13, 13 + n))
            &&& name_step(k, 13, 13 + n) == Ok::<Seq<char>, ParseFailure>(name)
            &&& frame_step(k, 13 + n, m3, m4) == Ok::<(int, int), ParseFailure>((17 + n, 17 + n + id.len()))
            &&& k.subrange(17 + n, 17 + n + id.len()) == id
        }),
{
    let nb = encode_utf8(name);
    let k = pre + framed(nb) + framed(id);
    lemma_framed_parts(pre, nb, framed(id));
    assert(k =~= pre + framed(nb) + framed(id));
    lemma_framed_parts(pre + framed(nb), id, Seq::empty());
    assert(k =~= pre + framed(nb) + framed(id) + Seq::<u8>::empty());
    vstd::utf8::encode_utf8_valid_utf8(name);
    vstd::utf8::encode_utf8_decode_utf8(name);
}

/// Parsing a vertex reverse key gives back the index name and vertex id it was built with.
pub proof fn lemma_vertex_reverse_key_roundtrip(space_id: u64, name: Seq<char>, vid: Seq<u8>)
    requires
        encode_utf8(name).len() <= u32::MAX,
        vid.len() <= u32::MAX,
    ensures
        parse_vertex_reverse_spec(vertex_reverse_key_spec(space_id, encode_utf8(name), vid)) == Ok::<
            (Seq<char>, Seq<u8>),
            ParseFailure,
        >((name, vid)),
{
    lemma_auto_spec_u64_to_from_le_bytes();
    let h = key_head(space_id, KEY_TYPE_VERTEX_REVERSE);
    assert(h.len() == 9);
    lemma_name_then_id(
        h,
        name,
        vid,
        "Invalid reverse key: missing index_name_len"@,
        "Invalid reverse key: index_name exceeds key length"@,
        "Invalid reverse key: missing vertex_id_len"@,
        "Invalid reverse key: vertex_id exceeds key length"@,
    );
}

/// Parsing an edge reverse key gives back the index name and source id it was built with.
pub proof fn lemma_edge_reverse_key_roundtrip(space_id: u64, name: Seq<char>, src: Seq<u8>)
    requires
        encode_utf8(name).len() <= u32::MAX,
        src.len() <= u32::MAX,
    ensures
        parse_edge_reverse_spec(edge_reverse_key_spec(space_id, encode_utf8(name), src)) == Ok::<
            (Seq<char>, Seq<u8>),
            ParseFailure,
        >((name, src)),
{
    lemma_auto_spec_u64_to_from_le_bytes();
    let h = key_head(space_id, KEY_TYPE_EDGE_REVERSE);
    assert(h.len() == 9);
    lemma_name_then_id(
        h,
        name,
        src,
        "Invalid edge reverse key: missing index_name_len"@,
        "Invalid edge reverse key: index_name exceeds key length"@,
        "Invalid edge reverse key: missing src_len"@,
        "Invalid edge reverse key: src exceeds key length"@,
    );
}

} // verus!
