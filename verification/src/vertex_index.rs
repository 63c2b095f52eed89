//! The multi-version vertex index: a forward map from (index, property value,
//! vertex) keys and a reverse map from (vertex, index) keys to entry lifetimes,
//! with optional key compression. Property values and vertex ids arrive already
//! serialized; lookups give serialized vertex ids back.
use vstd::prelude::*;
use vstd::string::StringSliceAdditionalSpecFns;
use crate::bytes::{u32_at, read_u32_le, copy_range, bytes_to_vec};
use crate::compression::{
    IndexCompressor, IndexCompressorView, CompressionConfig, CompressionType, StorageResult, index_compress_spec,
    index_decompress_spec, byte_strings, prefix_trained, dictionary_trained,
};
use crate::entry_map::{EntryMap, EntryList, find, range_of, in_range, live_at, deleted_count, list_view, is_stale};
use crate::error::{StorageError, ErrorView, result_view};
use crate::key_builder::{
    KeyBuilder, vertex_reverse_key_v2_spec, vertex_reverse_prefix_v2_spec, vertex_index_key_native_spec,
    vertex_reverse_key_native_spec, vertex_reverse_prefix_native_spec, composite_vertex_index_key_spec,
};
use crate::key_codec::{IndexKeyCodec, vertex_index_key_spec, index_prefix_spec, range_end_spec, KEY_TYPE_VERTEX_FORWARD};
use crate::key_parser::{
    KeyParser, parse_vertex_id_spec, parse_vertex_reverse_v2_spec, parse_vertex_id_native_spec,
    parse_vertex_reverse_native_spec, parse_composite_vertex_spec, ParseFailure,
};
use crate::mvcc::{IndexEntry, Timestamp, MAX_TIMESTAMP, visible_at};
use crate::model::Index;
use crate::index_file::{encode_entries, decode_entries, file_bytes, entries_from, truncated_message};
use vstd::utf8::*;

verus! {

/// The key under which the index stores `k`: compressed when it has a compressor.
pub open spec fn stored_key(c: Option<IndexCompressorView>, k: Seq<u8>) -> Seq<u8> {
    match c {
        Some(v) => index_compress_spec(v, k),
        None => k,
    }
}

/// The key that the stored key `k` stands for.
pub open spec fn read_key(c: Option<IndexCompressorView>, k: Seq<u8>) -> Result<Seq<u8>, ErrorView> {
    match c {
        Some(v) => index_decompress_spec(v, k),
        None => Ok(k),
    }
}

/// A lifetime that starts at `ts` and has not ended.
pub open spec fn fresh_entry(ts: Timestamp) -> IndexEntry {
    IndexEntry { created_ts: ts, deleted_ts: None }
}

/// What a vertex index holds: its forward and reverse entries and its compressor.
pub struct VertexIndexView {
    pub forward: EntryList,
    pub reverse: EntryList,
    pub compressor: Option<IndexCompressorView>,
}

/// An index from property values to vertices, with multi-version entries.
#[derive(Debug)]
pub struct VertexIndexManager {
    forward_index: EntryMap,
    reverse_index: EntryMap,
    compressor: Option<IndexCompressor>,
}

impl View for VertexIndexManager {
    type V = VertexIndexView;

    closed spec fn view(&self) -> VertexIndexView {
        VertexIndexView {
            forward: self.forward_index@,
            reverse: self.reverse_index@,
            compressor: match self.compressor {
                Some(c) => Some(c@),
                None => None,
            },
        }
    }
}

/// The stored forward keys that writing `props` for a vertex creates.
pub open spec fn written_forward_keys(
    c: Option<IndexCompressorView>,
    space_id: u64,
    name: Seq<u8>,
    props: Seq<Seq<u8>>,
    vid: Seq<u8>,
) -> Seq<Seq<u8>> {
    props.map_values(|p: Seq<u8>| stored_key(c, vertex_index_key_spec(space_id, name, p, vid)))
}

/// The values of a property list, serialized.
pub open spec fn prop_values(props: Seq<(String, Vec<u8>)>) -> Seq<Seq<u8>> {
    props.map_values(|p: (String, Vec<u8>)| p.1@)
}

/// Reading a stored forward key's vertex id; keys longer than a slice can be are
/// not keys.
pub open spec fn vid_of(key: Seq<u8>) -> Result<Seq<u8>, ParseFailure> {
    if key.len() <= isize::MAX {
        parse_vertex_id_spec(key)
    } else {
        Err(ParseFailure::BadName)
    }
}

/// The vertex ids that a lookup of `value` finds among the forward entries `es`
/// (the range of one index), at `read_ts`: visible entries whose key, read back,
/// holds a vertex id and, right after the index prefix of length `p`, the value.
/// `None` where the value's length field points past the end of the key, so that
/// the value cannot be read.
pub open spec fn lookup_scan(
    es: EntryList,
    c: Option<IndexCompressorView>,
    p: int,
    value: Seq<u8>,
    read_ts: Timestamp,
) -> Option<Result<Seq<Seq<u8>>, ErrorView>>
    decreases es.len(),
{
    if es.len() == 0 {
        Some(Ok(Seq::empty()))
    } else {
        match lookup_scan(es.drop_last(), c, p, value, read_ts) {
            None => None,
            Some(Err(e)) => Some(Err(e)),
            Some(Ok(found)) => {
                let (ck, e) = es.last();
                if !visible_at(e, read_ts) {
                    Some(Ok(found))
                } else {
                    match read_key(c, ck) {
                        Err(x) => Some(Err(x)),
                        Ok(key) => match vid_of(key) {
                            Err(_) => Some(Ok(found)),
                            Ok(vid) => if key.len() > p + 4 && u32_at(key, p) == value.len() {
                                if p + 4 + value.len() > key.len() {
                                    None
                                } else if key.subrange(p + 4, p + 4 + value.len()) == value {
                                    Some(Ok(found.push(vid)))
                                } else {
                                    Some(Ok(found))
                                }
                            } else {
                                Some(Ok(found))
                            },
                        },
                    }
                }
            },
        }
    }
}

/// The vertex ids that a range lookup finds among the forward entries `es`, at
/// `read_ts`: visible entries whose key, read back, holds a vertex id and, after the
/// index prefix of length `p`, a value in `[start, end)` of byte order.
pub open spec fn range_scan(
    es: EntryList,
    c: Option<IndexCompressorView>,
    p: int,
    start: Seq<u8>,
    end: Seq<u8>,
    read_ts: Timestamp,
) -> Result<Seq<Seq<u8>>, ErrorView>
    decreases es.len(),
{
    if es.len() == 0 {
        Ok(Seq::empty())
    } else {
        match range_scan(es.drop_last(), c, p, start, end, read_ts) {
            Err(e) => Err(e),
            Ok(found) => {
                let (ck, e) = es.last();
                if !visible_at(e, read_ts) {
                    Ok(found)
                } else {
                    match read_key(c, ck) {
                        Err(x) => Err(x),
                        Ok(key) => match vid_of(key) {
                            Err(_) => Ok(found),
                            Ok(vid) => if key.len() > p + 4 && p + 4 + u32_at(key, p) <= key.len() && in_range(
                                key.subrange(p + 4, p + 4 + u32_at(key, p)),
                                start,
                                end,
                            ) {
                                Ok(found.push(vid))
                            } else {
                                Ok(found)
                            },
                        },
                    }
                }
            },
        }
    }
}

/// The (value, vertex id) pairs that a scan of at most `limit` results finds among
/// the forward entries `es`, at `read_ts`.
pub open spec fn entry_scan(es: EntryList, c: Option<IndexCompressorView>, p: int, limit: nat, read_ts: Timestamp) -> Result<
    Seq<(Seq<u8>, Seq<u8>)>,
    ErrorView,
>
    decreases es.len(),
{
    if es.len() == 0 {
        Ok(Seq::empty())
    } else {
        match entry_scan(es.drop_last(), c, p, limit, read_ts) {
            Err(e) => Err(e),
            Ok(found) => {
                let (ck, e) = es.last();
                if found.len() >= limit || !visible_at(e, read_ts) {
                    Ok(found)
                } else {
                    match read_key(c, ck) {
                        Err(x) => Err(x),
                        Ok(key) => match vid_of(key) {
                            Err(_) => Ok(found),
                            Ok(vid) => if key.len() > p + 4 && p + 4 + u32_at(key, p) <= key.len() {
                                Ok(found.push((key.subrange(p + 4, p + 4 + u32_at(key, p)), vid)))
                            } else {
                                Ok(found)
                            },
                        },
                    }
                }
            },
        }
    }
}

/// The numbers of entries, live entries and deleted entries in a list.
pub open spec fn entry_counts(es: EntryList) -> (nat, nat, nat)
    decreases es.len(),
{
    if es.len() == 0 {
        (0, 0, 0)
    } else {
        let (t, v, d) = entry_counts(es.drop_last());
        if es.last().1.deleted_ts is Some {
            (t + 1, v, d + 1)
        } else {
            (t + 1, v + 1, d)
        }
    }
}

proof fn lemma_counts_add_up(es: EntryList)
    ensures
        entry_counts(es).1 + entry_counts(es).2 == entry_counts(es).0,
        entry_counts(es).0 == es.len(),
    decreases es.len(),
{
    if es.len() > 0 {
        lemma_counts_add_up(es.drop_last());
    }
}

proof fn lemma_range_scan_stops(
    es: EntryList,
    n: int,
    c: Option<IndexCompressorView>,
    p: int,
    start: Seq<u8>,
    end: Seq<u8>,
    read_ts: Timestamp,
)
    requires
        0 <= n <= es.len(),
        range_scan(es.subrange(0, n), c, p, start, end, read_ts) is Err,
    ensures
        range_scan(es, c, p, start, end, read_ts) == range_scan(es.subrange(0, n), c, p, start, end, read_ts),
    decreases es.len() - n,
{
    if n < es.len() {
        let t = es.subrange(0, n + 1);
        assert(t.drop_last() =~= es.subrange(0, n));
        lemma_range_scan_stops(es, n + 1, c, p, start, end, read_ts);
    } else {
        assert(es.subrange(0, n) =~= es);
    }
}

proof fn lemma_entry_scan_stops(es: EntryList, n: int, c: Option<IndexCompressorView>, p: int, limit: nat, read_ts: Timestamp)
    requires
        0 <= n <= es.len(),
        entry_scan(es.subrange(0, n), c, p, limit, read_ts) is Err || (entry_scan(es.subrange(0, n), c, p, limit, read_ts) matches Ok(f) && f.len() >= limit),
    ensures
        entry_scan(es, c, p, limit, read_ts) == entry_scan(es.subrange(0, n), c, p, limit, read_ts),
    decreases es.len() - n,
{
    if n < es.len() {
        let t = es.subrange(0, n + 1);
        assert(t.drop_last() =~= es.subrange(0, n));
        lemma_entry_scan_stops(es, n + 1, c, p, limit, read_ts);
    } else {
        assert(es.subrange(0, n) =~= es);
    }
}

/// Once a scan stops, with an error or out of bounds, entries after that do not matter.
proof fn lemma_scan_stops(es: EntryList, n: int, c: Option<IndexCompressorView>, p: int, value: Seq<u8>, read_ts: Timestamp)
    requires
        0 <= n <= es.len(),
        !(lookup_scan(es.subrange(0, n), c, p, value, read_ts) matches Some(Ok(_))),
    ensures
        lookup_scan(es, c, p, value, read_ts) == lookup_scan(es.subrange(0, n), c, p, value, read_ts),
    decreases es.len() - n,
{
    if n < es.len() {
        let t = es.subrange(0, n + 1);
        assert(t.drop_last() =~= es.subrange(0, n));
        lemma_scan_stops(es, n + 1, c, p, value, read_ts);
    } else {
        assert(es.subrange(0, n) =~= es);
    }
}

proof fn lemma_forward_stops(es: EntryList, n: int, c: Option<IndexCompressorView>, vid: Seq<u8>, ts: Timestamp)
    requires
        0 <= n <= es.len(),
        forward_matches(es.subrange(0, n), c, vid, ts) is Err,
    ensures
        forward_matches(es, c, vid, ts) == forward_matches(es.subrange(0, n), c, vid, ts),
    decreases es.len() - n,
{
    if n < es.len() {
        let t = es.subrange(0, n + 1);
        assert(t.drop_last() =~= es.subrange(0, n));
        lemma_forward_stops(es, n + 1, c, vid, ts);
    } else {
        assert(es.subrange(0, n) =~= es);
    }
}

proof fn lemma_plan_stops(v: VertexIndexView, es: EntryList, n: int, space_id: u64, vid: Seq<u8>, ts: Timestamp)
    requires
        0 <= n <= es.len(),
        delete_plan(v, es.subrange(0, n), space_id, vid, ts) is Err,
    ensures
        delete_plan(v, es, space_id, vid, ts) == delete_plan(v, es.subrange(0, n), space_id, vid, ts),
    decreases es.len() - n,
{
    if n < es.len() {
        let t = es.subrange(0, n + 1);
        assert(t.drop_last() =~= es.subrange(0, n));
        lemma_plan_stops(v, es, n + 1, space_id, vid, ts);
    } else {
        assert(es.subrange(0, n) =~= es);
    }
}

proof fn lemma_tag_plan_stops(es: EntryList, n: int, c: Option<IndexCompressorView>, tag: Seq<u8>)
    requires
        0 <= n <= es.len(),
        tag_plan(es.subrange(0, n), c, tag) is Err,
    ensures
        tag_plan(es, c, tag) == tag_plan(es.subrange(0, n), c, tag),
    decreases es.len() - n,
{
    if n < es.len() {
        let t = es.subrange(0, n + 1);
        assert(t.drop_last() =~= es.subrange(0, n));
        lemma_tag_plan_stops(es, n + 1, c, tag);
    } else {
        assert(es.subrange(0, n) =~= es);
    }
}

/// How many entries an index holds under its prefix.
#[derive(Debug, Clone, Copy, PartialEq, Eq, Structural)]
pub struct IndexEstimate {
    pub total_entries: usize,
    pub visible_entries: usize,
    pub tombstone_entries: usize,
}

/// A lookup of `value` in the index named `name`.
pub open spec fn lookup_spec(
    v: VertexIndexView,
    space_id: u64,
    name: Seq<char>,
    value: Seq<u8>,
    read_ts: Timestamp,
) -> Option<Result<Seq<Seq<u8>>, ErrorView>> {
    let prefix = index_prefix_spec(space_id, KEY_TYPE_VERTEX_FORWARD, encode_utf8(name));
    lookup_scan(range_of(v.forward, prefix, range_end_spec(prefix)), v.compressor, prefix.len() as int, value, read_ts)
}

/// The result of a scan agrees with its specification.
pub open spec fn scan_matches(
    r: Option<Result<Vec<Vec<u8>>, StorageError>>,
    s: Option<Result<Seq<Seq<u8>>, ErrorView>>,
) -> bool {
    match (r, s) {
        (None, None) => true,
        (Some(Ok(v)), Some(Ok(t))) => v@.map_values(|x: Vec<u8>| x@) == t,
        (Some(Err(e)), Some(Err(x))) => e@ == x,
        _ => false,
    }
}

/// Reading a stored reverse key's vertex id and index name.
pub open spec fn v2_of(key: Seq<u8>) -> Result<(Seq<u8>, Seq<char>), ParseFailure> {
    if key.len() <= isize::MAX {
        parse_vertex_reverse_v2_spec(key)
    } else {
        Err(ParseFailure::BadName)
    }
}

/// The stored forward keys among `es` that deleting the vertex `vid` at `ts` marks:
/// visible entries whose key reads back to one holding `vid`, and ending in it.
pub open spec fn forward_matches(
    es: EntryList,
    c: Option<IndexCompressorView>,
    vid: Seq<u8>,
    ts: Timestamp,
) -> Result<Seq<Seq<u8>>, ErrorView>
    decreases es.len(),
{
    if es.len() == 0 {
        Ok(Seq::empty())
    } else {
        match forward_matches(es.drop_last(), c, vid, ts) {
            Err(x) => Err(x),
            Ok(f) => {
                let (ck, e) = es.last();
                if !visible_at(e, ts) {
                    Ok(f)
                } else {
                    match read_key(c, ck) {
                        Err(x) => Err(x),
                        Ok(key) => if vid_of(key) == Ok::<Seq<u8>, ParseFailure>(vid) && key.len() >= vid.len()
                            && key.subrange(key.len() - vid.len(), key.len() as int) == vid {
                            Ok(f.push(ck))
                        } else {
                            Ok(f)
                        },
                    }
                }
            },
        }
    }
}

/// The stored reverse and forward keys that deleting the vertex `vid` at `ts` marks,
/// from the reverse entries `es` of the vertex: each visible one, and for each
/// that names an index, the matching forward entries of that index.
pub open spec fn delete_plan(v: VertexIndexView, es: EntryList, space_id: u64, vid: Seq<u8>, ts: Timestamp) -> Result<
    (Seq<Seq<u8>>, Seq<Seq<u8>>),
    ErrorView,
>
    decreases es.len(),
{
    if es.len() == 0 {
        Ok((Seq::empty(), Seq::empty()))
    } else {
        match delete_plan(v, es.drop_last(), space_id, vid, ts) {
            Err(x) => Err(x),
            Ok((rk, fk)) => {
                let (ck, e) = es.last();
                if !visible_at(e, ts) {
                    Ok((rk, fk))
                } else {
                    match read_key(v.compressor, ck) {
                        Err(x) => Err(x),
                        Ok(key) => match v2_of(key) {
                            Err(_) => Ok((rk.push(ck), fk)),
                            Ok((_, name)) => {
                                let pre = index_prefix_spec(space_id, KEY_TYPE_VERTEX_FORWARD, encode_utf8(name));
                                match forward_matches(range_of(v.forward, pre, range_end_spec(pre)), v.compressor, vid, ts) {
                                    Err(x) => Err(x),
                                    Ok(f) => Ok((rk.push(ck), fk + f)),
                                }
                            },
                        },
                    }
                }
            },
        }
    }
}

/// `new` is `old` with the entries under `keys` marked deleted at `ts`.
pub open spec fn marked(new: EntryList, old: EntryList, keys: Seq<Seq<u8>>, ts: Timestamp) -> bool {
    forall|k: Seq<u8>| #[trigger]
        find(new, k) == if keys.contains(k) {
            match find(old, k) {
                Some(e) => Some(IndexEntry { deleted_ts: Some(ts), ..e }),
                None => None,
            }
        } else {
            find(old, k)
        }
}

/// The stored reverse keys among `es` that deleting a tag's entries removes: those
/// whose key reads back to a v2 reverse key naming an index whose name starts with
/// `tag`.
pub open spec fn tag_plan(es: EntryList, c: Option<IndexCompressorView>, tag: Seq<u8>) -> Result<
    Seq<Seq<u8>>,
    ErrorView,
>
    decreases es.len(),
{
    if es.len() == 0 {
        Ok(Seq::empty())
    } else {
        match tag_plan(es.drop_last(), c, tag) {
            Err(x) => Err(x),
            Ok(f) => match read_key(c, es.last().0) {
                Err(x) => Err(x),
                Ok(key) => match v2_of(key) {
                    Ok((_, name)) => if tag.len() <= encode_utf8(name).len() && encode_utf8(name).subrange(
                        0,
                        tag.len() as int,
                    ) == tag {
                        Ok(f.push(es.last().0))
                    } else {
                        Ok(f)
                    },
                    Err(_) => Ok(f),
                },
            },
        }
    }
}

/// `new` is `old` without the entries under `keys`.
pub open spec fn removed(new: EntryList, old: EntryList, keys: Seq<Seq<u8>>) -> bool {
    forall|k: Seq<u8>| #[trigger]
        find(new, k) == if keys.contains(k) {
            None
        } else {
            find(old, k)
        }
}

impl VertexIndexManager {
    fn parse_vid(key: &[u8]) -> (r: Option<Vec<u8>>)
        ensures
            match vid_of(key@) {
                Ok(v) => r matches Some(x) && x@ == v,
                Err(_) => r is None,
            },
    {
        if key.len() > isize::MAX as usize {
            return None;
        }
        match KeyParser::parse_vertex_id_from_key(key) {
            Ok(v) => Some(v),
            Err(_) => None,
        }
    }

    fn lookup_in(&self, lo: &[u8], hi: &[u8], p: usize, value: &[u8], read_ts: Timestamp) -> (r: Option<
        Result<Vec<Vec<u8>>, StorageError>,
    >)
        ensures
            scan_matches(r, lookup_scan(range_of(self@.forward, lo@, hi@), self@.compressor, p as int, value@, read_ts)),
    {
        let entries = self.forward_index.range(lo, hi);
        let ghost es = list_view(entries@);
        let ghost c = self@.compressor;
        let mut found: Vec<Vec<u8>> = Vec::new();
        let mut i: usize = 0;
        assert(es.subrange(0, 0) =~= Seq::<(Seq<u8>, IndexEntry)>::empty());
        assert(found@.map_values(|x: Vec<u8>| x@) =~= Seq::<Seq<u8>>::empty());
        while i < entries.len()
            invariant
                i <= entries@.len(),
                es == list_view(entries@),
                es == range_of(self@.forward, lo@, hi@),
                es.len() == entries@.len(),
                c == self@.compressor,
                lookup_scan(es.subrange(0, i as int), c, p as int, value@, read_ts) == Some(
                    Ok::<Seq<Seq<u8>>, ErrorView>(found@.map_values(|x: Vec<u8>| x@)),
                ),
            decreases entries@.len() - i,
        {
            let ghost sub = es.subrange(0, i as int + 1);
            assert(sub.drop_last() =~= es.subrange(0, i as int));
            assert(sub.last() == (entries@[i as int].0@, entries@[i as int].1));
            let ghost before = found@.map_values(|x: Vec<u8>| x@);
            let e = entries[i].1;
            if e.is_visible_at(read_ts) {
                let key = match self.decompress_key(entries[i].0.as_slice()) {
                    Ok(k) => k,
                    Err(x) => {
                        proof {
                            lemma_scan_stops(es, i as int + 1, c, p as int, value@, read_ts);
                        }
                        return Some(Err(x));
                    },
                };
                match Self::parse_vid(key.as_slice()) {
                    Some(vid) => {
                        if key.len() > p && key.len() - p > 4 && read_u32_le(key.as_slice(), p) as u64 == value.len() as u64 {
                            if value.len() > key.len() - p - 4 {
                                proof {
                                    lemma_scan_stops(es, i as int + 1, c, p as int, value@, read_ts);
                                }
                                return None;
                            }
                            let stored = copy_range(key.as_slice(), p + 4, p + 4 + value.len());
                            if crate::compression::bytes_eq(stored.as_slice(), value) {
                                found.push(vid);
                                assert(found@.map_values(|x: Vec<u8>| x@) =~= before.push(
                                    vid@,
                                ));
                            }
                        }
                    },
                    None => {},
                }
            }
            i = i + 1;
        }
        assert(es.subrange(0, i as int) =~= es);
        Some(Ok(found))
    }

    fn compress_key(&self, key: &[u8]) -> (r: Vec<u8>)
        ensures
            r@ == stored_key(self@.compressor, key@),
    {
        match &self.compressor {
            Some(c) => c.compress_key(key),
            None => bytes_to_vec(key),
        }
    }

    fn decompress_key(&self, compressed: &[u8]) -> (r: StorageResult<Vec<u8>>)
        ensures
            result_view(r) == read_key(self@.compressor, compressed@),
    {
        match &self.compressor {
            Some(c) => c.decompress_key(compressed),
            None => Ok(bytes_to_vec(compressed)),
        }
    }

    /// An empty index without compression.
    pub fn new() -> (r: Self)
        ensures
            r@.forward.len() == 0,
            r@.reverse.len() == 0,
            r@.compressor is None,
    {
        VertexIndexManager { forward_index: EntryMap::new(), reverse_index: EntryMap::new(), compressor: None }
    }

    /// An empty index whose keys are compressed as `config` says, once trained.
    pub fn with_compression(config: CompressionConfig) -> (r: Self)
        ensures
            r@.forward.len() == 0,
            r@.reverse.len() == 0,
            r@.compressor matches Some(c) && c.config == config && c.prefix is None && c.dictionary is None,
    {
        VertexIndexManager {
            forward_index: EntryMap::new(),
            reverse_index: EntryMap::new(),
            compressor: Some(IndexCompressor::new(config)),
        }
    }

    /// Whether keys are compressed.
    pub fn is_compression_enabled(&self) -> (r: bool)
        ensures
            r == (self@.compressor matches Some(c) && c.config.compression_type != CompressionType::Disabled),
    {
        match &self.compressor {
            Some(c) => c.is_enabled(),
            None => false,
        }
    }

    /// Trains the compressor, if there is one, on `keys`.
    pub fn train_compression(&mut self, keys: &[Vec<u8>]) -> (r: StorageResult<()>)
        requires
            old(self)@.compressor matches Some(c) && c.config.compression_type == CompressionType::Dictionary
                ==> keys@.len() <= u32::MAX,
        ensures
            r is Ok,
            final(self)@.forward == old(self)@.forward,
            final(self)@.reverse == old(self)@.reverse,
            match old(self)@.compressor {
                None => final(self)@.compressor is None,
                Some(c) => final(self)@.compressor matches Some(d) && d.config == c.config && match c.config.compression_type {
                    CompressionType::Prefix => d.dictionary == c.dictionary && (d.prefix matches Some(p)
                        && prefix_trained(byte_strings(keys@), p)),
                    CompressionType::Dictionary => d.prefix == c.prefix && (d.dictionary matches Some(t)
                        && dictionary_trained(byte_strings(keys@), c.config.dictionary_threshold, t)),
                    _ => d == c,
                },
            },
    {
        match &mut self.compressor {
            Some(c) => {
                c.train_keys(keys)?;
            },
            None => {},
        }
        Ok(())
    }

    /// The numbers of forward and reverse entries.
    pub fn entry_count(&self) -> (r: (usize, usize))
        ensures
            r.0 == self@.forward.len(),
            r.1 == self@.reverse.len(),
    {
        (self.forward_index.len(), self.reverse_index.len())
    }

    /// The number of deleted entries, forward and reverse together; the caller keeps
    /// the sum within `usize`.
    pub fn tombstone_count(&self) -> (r: usize)
        requires
            deleted_count(self@.forward) + deleted_count(self@.reverse) <= usize::MAX,
        ensures
            r == deleted_count(self@.forward) + deleted_count(self@.reverse),
    {
        self.forward_index.deleted_entries() + self.reverse_index.deleted_entries()
    }

    /// Removes every entry.
    pub fn clear_all(&mut self) -> (r: Result<(), StorageError>)
        ensures
            r is Ok,
            final(self)@.forward.len() == 0,
            final(self)@.reverse.len() == 0,
            final(self)@.compressor == old(self)@.compressor,
    {
        self.forward_index.clear();
        self.reverse_index.clear();
        Ok(())
    }

    /// Removes every entry deleted before `safe_ts` and returns how many went.
    pub fn gc_tombstones(&mut self, safe_ts: Timestamp) -> (r: Result<usize, StorageError>)
        requires
            old(self)@.forward.len() + old(self)@.reverse.len() <= usize::MAX,
        ensures
            final(self)@.forward == live_at(old(self)@.forward, safe_ts),
            final(self)@.reverse == live_at(old(self)@.reverse, safe_ts),
            final(self)@.compressor == old(self)@.compressor,
            r == Ok::<usize, StorageError>(
                (old(self)@.forward.len() - final(self)@.forward.len() + old(self)@.reverse.len()
                    - final(self)@.reverse.len()) as usize,
            ),
    {
        let a = self.forward_index.remove_stale(safe_ts);
        let b = self.reverse_index.remove_stale(safe_ts);
        proof {
            assert(self@.forward.len() <= old(self)@.forward.len());
        }
        Ok(a + b)
    }

    /// Writes the index entries of a vertex at `MAX_TIMESTAMP`.
    pub fn update_vertex_indexes(
        &mut self,
        space_id: u64,
        vertex_id: &[u8],
        index_name: &str,
        props: &[(String, Vec<u8>)],
    ) -> (r: Result<(), StorageError>)
        ensures
            r is Ok,
            final(self)@.compressor == old(self)@.compressor,
            forall|k: Seq<u8>| #[trigger]
                find(final(self)@.forward, k) == if written_forward_keys(
                    old(self)@.compressor,
                    space_id,
                    index_name.spec_bytes(),
                    prop_values(props@),
                    vertex_id@,
                ).contains(k) {
                    Some(fresh_entry(MAX_TIMESTAMP))
                } else {
                    find(old(self)@.forward, k)
                },
            forall|k: Seq<u8>| #[trigger]
                find(final(self)@.reverse, k) == if props@.len() > 0 && k == stored_key(
                    old(self)@.compressor,
                    vertex_reverse_key_v2_spec(space_id, vertex_id@, index_name.spec_bytes()),
                ) {
                    Some(fresh_entry(MAX_TIMESTAMP))
                } else {
                    find(old(self)@.reverse, k)
                },
    {
        self.update_vertex_indexes_mvcc(space_id, vertex_id, index_name, props, MAX_TIMESTAMP)
    }

    /// Writes the index entries of a vertex: for each property, a forward entry under
    /// its value and a reverse entry for the vertex and index, both created at
    /// `write_ts`.
    pub fn update_vertex_indexes_mvcc(
        &mut self,
        space_id: u64,
        vertex_id: &[u8],
        index_name: &str,
        props: &[(String, Vec<u8>)],
        write_ts: Timestamp,
    ) -> (r: Result<(), StorageError>)
        ensures
            r is Ok,
            final(self)@.compressor == old(self)@.compressor,
            forall|k: Seq<u8>| #[trigger]
                find(final(self)@.forward, k) == if written_forward_keys(
                    old(self)@.compressor,
                    space_id,
                    index_name.spec_bytes(),
                    prop_values(props@),
                    vertex_id@,
                ).contains(k) {
                    Some(fresh_entry(write_ts))
                } else {
                    find(old(self)@.forward, k)
                },
            forall|k: Seq<u8>| #[trigger]
                find(final(self)@.reverse, k) == if props@.len() > 0 && k == stored_key(
                    old(self)@.compressor,
                    vertex_reverse_key_v2_spec(space_id, vertex_id@, index_name.spec_bytes()),
                ) {
                    Some(fresh_entry(write_ts))
                } else {
                    find(old(self)@.reverse, k)
                },
    {
        let ghost fkeys = written_forward_keys(
            self@.compressor,
            space_id,
            index_name.spec_bytes(),
            prop_values(props@),
            vertex_id@,
        );
        let ghost rkey = stored_key(
            self@.compressor,
            vertex_reverse_key_v2_spec(space_id, vertex_id@, index_name.spec_bytes()),
        );
        let ghost old_fwd = self@.forward;
        let ghost old_rev = self@.reverse;
        let ghost comp = self@.compressor;
        let entry = IndexEntry::new(write_ts);
        let mut i: usize = 0;
        while i < props.len()
            invariant
                i <= props@.len(),
                self@.compressor == comp,
                fkeys == written_forward_keys(comp, space_id, index_name.spec_bytes(), prop_values(props@), vertex_id@),
                rkey == stored_key(comp, vertex_reverse_key_v2_spec(space_id, vertex_id@, index_name.spec_bytes())),
                entry == fresh_entry(write_ts),
                forall|k: Seq<u8>| #[trigger]
                    find(self@.forward, k) == if fkeys.subrange(0, i as int).contains(k) {
                        Some(fresh_entry(write_ts))
                    } else {
                        find(old_fwd, k)
                    },
                forall|k: Seq<u8>| #[trigger]
                    find(self@.reverse, k) == if i > 0 && k == rkey {
                        Some(fresh_entry(write_ts))
                    } else {
                        find(old_rev, k)
                    },
            decreases props@.len() - i,
        {
            let fkey = IndexKeyCodec::build_vertex_index_key(space_id, index_name, props[i].1.as_slice(), vertex_id);
            let rkey_raw = KeyBuilder::build_vertex_reverse_key_v2(space_id, vertex_id, index_name);
            let cf = self.compress_key(fkey.0.as_slice());
            let cr = self.compress_key(rkey_raw.0.as_slice());
            proof {
                assert(prop_values(props@)[i as int] == props@[i as int].1@);
                assert(cf@ == fkeys[i as int]);
                assert(fkeys.subrange(0, i as int + 1) =~= fkeys.subrange(0, i as int).push(cf@));
            }
            let ghost cfv = cf@;
            let ghost crv = cr@;
            assert(crv == rkey);
            let ghost fwd_before = self@.forward;
            let ghost rev_before = self@.reverse;
            let _ = self.forward_index.insert(cf, entry);
            let _ = self.reverse_index.insert(cr, entry);
            proof {
                assert(find(self@.forward, cfv) == Some(entry));
                assert(forall|k: Seq<u8>| k != cfv ==> #[trigger] find(self@.forward, k) == find(fwd_before, k));
                assert(forall|k: Seq<u8>| k != crv ==> #[trigger] find(self@.reverse, k) == find(rev_before, k));
                assert forall|k: Seq<u8>| #[trigger] find(self@.forward, k) == if fkeys.subrange(0, i as int + 1).contains(k) {
                    Some(fresh_entry(write_ts))
                } else {
                    find(old_fwd, k)
                } by {
                    if k != fkeys[i as int] {
                        if fkeys.subrange(0, i as int + 1).contains(k) {
                            let j = choose|j: int| 0 <= j < i + 1 && #[trigger] fkeys.subrange(0, i as int + 1)[j] == k;
                            assert(fkeys.subrange(0, i as int)[j] == k);
                        }
                        if fkeys.subrange(0, i as int).contains(k) {
                            let j = choose|j: int| 0 <= j < i && #[trigger] fkeys.subrange(0, i as int)[j] == k;
                            assert(fkeys.subrange(0, i as int + 1)[j] == k);
                        }
                    } else {
                        assert(fkeys.subrange(0, i as int + 1)[i as int] == k);
                    }
                }
            }
            i = i + 1;
        }
        assert(fkeys.subrange(0, i as int) =~= fkeys);
        Ok(())
    }

    /// Marks deleted, at `write_ts`, the forward entry of one property value of a
    /// vertex and the vertex's reverse entry for the index.
    pub fn delete_vertex_index_single(
        &mut self,
        space_id: u64,
        vertex_id: &[u8],
        index_name: &str,
        prop_value: &[u8],
        write_ts: Timestamp,
    ) -> (r: Result<(), StorageError>)
        ensures
            r is Ok,
            final(self)@.compressor == old(self)@.compressor,
            ({
                let fk = stored_key(
                    old(self)@.compressor,
                    vertex_index_key_spec(space_id, index_name.spec_bytes(), prop_value@, vertex_id@),
                );
                let rk = stored_key(
                    old(self)@.compressor,
                    vertex_reverse_key_v2_spec(space_id, vertex_id@, index_name.spec_bytes()),
                );
                &&& find(final(self)@.forward, fk) == match find(old(self)@.forward, fk) {
                    Some(e) => Some(IndexEntry { deleted_ts: Some(write_ts), ..e }),
                    None => None::<IndexEntry>,
                }
                &&& forall|k: Seq<u8>| k != fk ==> #[trigger] find(final(self)@.forward, k) == find(old(self)@.forward, k)
                &&& find(final(self)@.reverse, rk) == match find(old(self)@.reverse, rk) {
                    Some(e) => Some(IndexEntry { deleted_ts: Some(write_ts), ..e }),
                    None => None::<IndexEntry>,
                }
                &&& forall|k: Seq<u8>| k != rk ==> #[trigger] find(final(self)@.reverse, k) == find(old(self)@.reverse, k)
            }),
    {
        let fkey = IndexKeyCodec::build_vertex_index_key(space_id, index_name, prop_value, vertex_id);
        let rkey = KeyBuilder::build_vertex_reverse_key_v2(space_id, vertex_id, index_name);
        let cf = self.compress_key(fkey.0.as_slice());
        let cr = self.compress_key(rkey.0.as_slice());
        self.forward_index.mark_deleted(cf.as_slice(), write_ts);
        self.reverse_index.mark_deleted(cr.as_slice(), write_ts);
        Ok(())
    }

    fn parse_v2(key: &[u8]) -> (r: Option<(Vec<u8>, String)>)
        ensures
            match v2_of(key@) {
                Ok((v, n)) => r matches Some(x) && x.0@ == v && x.1@ == n,
                Err(_) => r is None,
            },
    {
        if key.len() > isize::MAX as usize {
            return None;
        }
        match KeyParser::parse_vertex_reverse_key_v2(key) {
            Ok(x) => Some(x),
            Err(_) => None,
        }
    }

    fn forward_matches_in(&self, lo: &[u8], hi: &[u8], vid: &[u8], ts: Timestamp) -> (r: Result<
        Vec<Vec<u8>>,
        StorageError,
    >)
        ensures
            match (r, forward_matches(range_of(self@.forward, lo@, hi@), self@.compressor, vid@, ts)) {
                (Ok(v), Ok(t)) => v@.map_values(|x: Vec<u8>| x@) == t,
                (Err(e), Err(x)) => e@ == x,
                _ => false,
            },
    {
        let entries = self.forward_index.range(lo, hi);
        let ghost es = list_view(entries@);
        let ghost c = self@.compressor;
        let mut out: Vec<Vec<u8>> = Vec::new();
        let mut i: usize = 0;
        assert(es.subrange(0, 0) =~= Seq::<(Seq<u8>, IndexEntry)>::empty());
        assert(out@.map_values(|x: Vec<u8>| x@) =~= Seq::<Seq<u8>>::empty());
        while i < entries.len()
            invariant
                i <= entries@.len(),
                es == list_view(entries@),
                es == range_of(self@.forward, lo@, hi@),
                es.len() == entries@.len(),
                c == self@.compressor,
                forward_matches(es.subrange(0, i as int), c, vid@, ts) == Ok::<Seq<Seq<u8>>, ErrorView>(
                    out@.map_values(|x: Vec<u8>| x@),
                ),
            decreases entries@.len() - i,
        {
            let ghost sub = es.subrange(0, i as int + 1);
            assert(sub.drop_last() =~= es.subrange(0, i as int));
            assert(sub.last() == (entries@[i as int].0@, entries@[i as int].1));
            let ghost before = out@.map_values(|x: Vec<u8>| x@);
            if entries[i].1.is_visible_at(ts) {
                let key = match self.decompress_key(entries[i].0.as_slice()) {
                    Ok(k) => k,
                    Err(x) => {
                        proof {
                            lemma_forward_stops(es, i as int + 1, c, vid@, ts);
                        }
                        return Err(x);
                    },
                };
                let hit = match Self::parse_vid(key.as_slice()) {
                    Some(v) => crate::compression::bytes_eq(v.as_slice(), vid) && key.len() >= vid.len()
                        && crate::compression::bytes_eq(
                        vstd::slice::slice_subrange(key.as_slice(), key.len() - vid.len(), key.len()),
                        vid,
                    ),
                    None => false,
                };
                if hit {
                    out.push(bytes_to_vec(entries[i].0.as_slice()));
                    assert(out@.map_values(|x: Vec<u8>| x@) =~= before.push(entries@[i as int].0@));
                }
            }
            i = i + 1;
        }
        assert(es.subrange(0, i as int) =~= es);
        Ok(out)
    }

    /// Marks every listed key of `map` deleted at `ts`.
    fn mark_all(map: &mut EntryMap, keys: &Vec<Vec<u8>>, ts: Timestamp)
        ensures
            marked(final(map)@, old(map)@, keys@.map_values(|x: Vec<u8>| x@), ts),
    {
        let ghost ks = keys@.map_values(|x: Vec<u8>| x@);
        let ghost start = map@;
        let mut i: usize = 0;
        while i < keys.len()
            invariant
                i <= keys@.len(),
                ks == keys@.map_values(|x: Vec<u8>| x@),
                marked(map@, start, ks.subrange(0, i as int), ts),
            decreases keys@.len() - i,
        {
            let ghost before = map@;
            map.mark_deleted(keys[i].as_slice(), ts);
            proof {
                let ki = ks[i as int];
                assert(keys@[i as int]@ == ki);
                assert forall|k: Seq<u8>| #[trigger]
                    find(map@, k) == if ks.subrange(0, i as int + 1).contains(k) {
                        match find(start, k) {
                            Some(e) => Some(IndexEntry { deleted_ts: Some(ts), ..e }),
                            None => None,
                        }
                    } else {
                        find(start, k)
                    } by {
                    assert(find(before, k) == if ks.subrange(0, i as int).contains(k) {
                        match find(start, k) {
                            Some(e) => Some(IndexEntry { deleted_ts: Some(ts), ..e }),
                            None => None,
                        }
                    } else {
                        find(start, k)
                    });
                    if k == ki {
                        assert(ks.subrange(0, i as int + 1)[i as int] == k);
                    } else {
                        if ks.subrange(0, i as int + 1).contains(k) {
                            let j = choose|j: int| 0 <= j < i + 1 && #[trigger] ks.subrange(0, i as int + 1)[j] == k;
                            assert(ks.subrange(0, i as int)[j] == k);
                        }
                        if ks.subrange(0, i as int).contains(k) {
                            let j = choose|j: int| 0 <= j < i && #[trigger] ks.subrange(0, i as int)[j] == k;
                            assert(ks.subrange(0, i as int + 1)[j] == k);
                        }
                    }
                }
            }
            i = i + 1;
        }
        assert(ks.subrange(0, i as int) =~= ks);
    }

    /// Removes every listed key of `map`.
    fn remove_all(map: &mut EntryMap, keys: &Vec<Vec<u8>>)
        ensures
            removed(final(map)@, old(map)@, keys@.map_values(|x: Vec<u8>| x@)),
    {
        let ghost ks = keys@.map_values(|x: Vec<u8>| x@);
        let ghost start = map@;
        let mut i: usize = 0;
        while i < keys.len()
            invariant
                i <= keys@.len(),
                ks == keys@.map_values(|x: Vec<u8>| x@),
                removed(map@, start, ks.subrange(0, i as int)),
            decreases keys@.len() - i,
        {
            let ghost before = map@;
            let _ = map.remove(keys[i].as_slice());
            proof {
                let ki = ks[i as int];
                assert(keys@[i as int]@ == ki);
                assert forall|k: Seq<u8>| #[trigger]
                    find(map@, k) == if ks.subrange(0, i as int + 1).contains(k) {
                        None
                    } else {
                        find(start, k)
                    } by {
                    assert(find(before, k) == if ks.subrange(0, i as int).contains(k) {
                        None
                    } else {
                        find(start, k)
                    });
                    if k == ki {
                        assert(ks.subrange(0, i as int + 1)[i as int] == k);
                    } else {
                        if ks.subrange(0, i as int + 1).contains(k) {
                            let j = choose|j: int| 0 <= j < i + 1 && #[trigger] ks.subrange(0, i as int + 1)[j] == k;
                            assert(ks.subrange(0, i as int)[j] == k);
                        }
                        if ks.subrange(0, i as int).contains(k) {
                            let j = choose|j: int| 0 <= j < i && #[trigger] ks.subrange(0, i as int)[j] == k;
                            assert(ks.subrange(0, i as int + 1)[j] == k);
                        }
                    }
                }
            }
            i = i + 1;
        }
        assert(ks.subrange(0, i as int) =~= ks);
    }

    fn append_keys(dst: &mut Vec<Vec<u8>>, src: Vec<Vec<u8>>)
        ensures
            final(dst)@.map_values(|x: Vec<u8>| x@) == old(dst)@.map_values(|x: Vec<u8>| x@) + src@.map_values(
                |x: Vec<u8>| x@,
            ),
    {
        let ghost base = dst@.map_values(|x: Vec<u8>| x@);
        let ghost sv = src@.map_values(|x: Vec<u8>| x@);
        let mut i: usize = 0;
        while i < src.len()
            invariant
                i <= src@.len(),
                sv == src@.map_values(|x: Vec<u8>| x@),
                dst@.map_values(|x: Vec<u8>| x@) == base + sv.subrange(0, i as int),
            decreases src@.len() - i,
        {
            let ghost before = dst@.map_values(|x: Vec<u8>| x@);
            dst.push(bytes_to_vec(src[i].as_slice()));
            assert(dst@.map_values(|x: Vec<u8>| x@) =~= before.push(sv[i as int]));
            assert(sv.subrange(0, i as int + 1) =~= sv.subrange(0, i as int).push(sv[i as int]));
            i = i + 1;
        }
        assert(sv.subrange(0, i as int) =~= sv);
    }

    /// Deletes, at `MAX_TIMESTAMP`, the index entries of a vertex.
    pub fn delete_vertex_indexes(&mut self, space_id: u64, vertex_id: &[u8]) -> (r: Result<(), StorageError>)
        ensures
            final(self)@.compressor == old(self)@.compressor,
            ({
                let pre = vertex_reverse_prefix_v2_spec(space_id, vertex_id@);
                match delete_plan(
                    old(self)@,
                    range_of(old(self)@.reverse, pre, range_end_spec(pre)),
                    space_id,
                    vertex_id@,
                    MAX_TIMESTAMP,
                ) {
                    Err(x) => r matches Err(e) && e@ == x && final(self)@.forward == old(self)@.forward
                        && final(self)@.reverse == old(self)@.reverse,
                    Ok((rk, fk)) => r is Ok && marked(final(self)@.reverse, old(self)@.reverse, rk, MAX_TIMESTAMP)
                        && marked(final(self)@.forward, old(self)@.forward, fk, MAX_TIMESTAMP),
                }
            }),
    {
        self.delete_vertex_indexes_mvcc(space_id, vertex_id, MAX_TIMESTAMP)
    }

    /// Deletes, at `write_ts`, the index entries of a vertex: each of its reverse
    /// entries visible at `write_ts` and, for the index each one names, the visible
    /// forward entries of the vertex. Nothing changes if a stored key cannot be
    /// read back.
    pub fn delete_vertex_indexes_mvcc(&mut self, space_id: u64, vertex_id: &[u8], write_ts: Timestamp) -> (r: Result<
        (),
        StorageError,
    >)
        ensures
            final(self)@.compressor == old(self)@.compressor,
            ({
                let pre = vertex_reverse_prefix_v2_spec(space_id, vertex_id@);
                match delete_plan(
                    old(self)@,
                    range_of(old(self)@.reverse, pre, range_end_spec(pre)),
                    space_id,
                    vertex_id@,
                    write_ts,
                ) {
                    Err(x) => r matches Err(e) && e@ == x && final(self)@.forward == old(self)@.forward
                        && final(self)@.reverse == old(self)@.reverse,
                    Ok((rk, fk)) => r is Ok && marked(final(self)@.reverse, old(self)@.reverse, rk, write_ts)
                        && marked(final(self)@.forward, old(self)@.forward, fk, write_ts),
                }
            }),
    {
        let rpre = KeyBuilder::build_vertex_reverse_prefix_v2(space_id, vertex_id);
        let rend = IndexKeyCodec::build_range_end(&rpre);
        let entries = self.reverse_index.range(rpre.as_ref(), rend.as_ref());
        let ghost es = list_view(entries@);
        let ghost v = self@;
        let mut rkeys: Vec<Vec<u8>> = Vec::new();
        let mut fkeys: Vec<Vec<u8>> = Vec::new();
        let mut i: usize = 0;
        assert(es.subrange(0, 0) =~= Seq::<(Seq<u8>, IndexEntry)>::empty());
        assert(rkeys@.map_values(|x: Vec<u8>| x@) =~= Seq::<Seq<u8>>::empty());
        assert(fkeys@.map_values(|x: Vec<u8>| x@) =~= Seq::<Seq<u8>>::empty());
        while i < entries.len()
            invariant
                i <= entries@.len(),
                es == list_view(entries@),
                es == range_of(old(self)@.reverse, rpre@, rend@),
                rpre@ == vertex_reverse_prefix_v2_spec(space_id, vertex_id@),
                rend@ == range_end_spec(rpre@),
                es.len() == entries@.len(),
                v == self@,
                v == old(self)@,
                delete_plan(v, es.subrange(0, i as int), space_id, vertex_id@, write_ts) == Ok::<
                    (Seq<Seq<u8>>, Seq<Seq<u8>>),
                    ErrorView,
                >((rkeys@.map_values(|x: Vec<u8>| x@), fkeys@.map_values(|x: Vec<u8>| x@))),
            decreases entries@.len() - i,
        {
            let ghost sub = es.subrange(0, i as int + 1);
            assert(sub.drop_last() =~= es.subrange(0, i as int));
            assert(sub.last() == (entries@[i as int].0@, entries@[i as int].1));
            let ghost rbefore = rkeys@.map_values(|x: Vec<u8>| x@);
            if entries[i].1.is_visible_at(write_ts) {
                let key = match self.decompress_key(entries[i].0.as_slice()) {
                    Ok(k) => k,
                    Err(x) => {
                        proof {
                            lemma_plan_stops(v, es, i as int + 1, space_id, vertex_id@, write_ts);
                        }
                        return Err(x);
                    },
                };
                rkeys.push(bytes_to_vec(entries[i].0.as_slice()));
                assert(rkeys@.map_values(|x: Vec<u8>| x@) =~= rbefore.push(entries@[i as int].0@));
                match Self::parse_v2(key.as_slice()) {
                    Some((_, name)) => {
                        let pre = IndexKeyCodec::build_vertex_index_prefix(space_id, name.as_str());
                        let end = IndexKeyCodec::build_range_end(&pre);
                        let f = match self.forward_matches_in(pre.as_ref(), end.as_ref(), vertex_id, write_ts) {
                            Ok(f) => f,
                            Err(x) => {
                                proof {
                                    lemma_plan_stops(v, es, i as int + 1, space_id, vertex_id@, write_ts);
                                }
                                return Err(x);
                            },
                        };
                        Self::append_keys(&mut fkeys, f);
                    },
                    None => {},
                }
            }
            i = i + 1;
        }
        assert(es.subrange(0, i as int) =~= es);
        Self::mark_all(&mut self.reverse_index, &rkeys, write_ts);
        Self::mark_all(&mut self.forward_index, &fkeys, write_ts);
        Ok(())
    }

    /// Removes the reverse entries of a vertex for the indexes whose names start
    /// with `tag_name`. Nothing changes if a stored key cannot be read back.
    pub fn delete_tag_indexes(&mut self, space_id: u64, vertex_id: &[u8], tag_name: &str) -> (r: Result<
        (),
        StorageError,
    >)
        ensures
            final(self)@.compressor == old(self)@.compressor,
            final(self)@.forward == old(self)@.forward,
            ({
                let pre = vertex_reverse_prefix_v2_spec(space_id, vertex_id@);
                match tag_plan(
                    range_of(old(self)@.reverse, pre, range_end_spec(pre)),
                    old(self)@.compressor,
                    tag_name.spec_bytes(),
                ) {
                    Err(x) => r matches Err(e) && e@ == x && final(self)@.reverse == old(self)@.reverse,
                    Ok(keys) => r is Ok && removed(final(self)@.reverse, old(self)@.reverse, keys),
                }
            }),
    {
        let rpre = KeyBuilder::build_vertex_reverse_prefix_v2(space_id, vertex_id);
        let rend = IndexKeyCodec::build_range_end(&rpre);
        let entries = self.reverse_index.range(rpre.as_ref(), rend.as_ref());
        let ghost es = list_view(entries@);
        let ghost c = self@.compressor;
        let tag = tag_name.as_bytes();
        let mut keys: Vec<Vec<u8>> = Vec::new();
        let mut i: usize = 0;
        assert(es.subrange(0, 0) =~= Seq::<(Seq<u8>, IndexEntry)>::empty());
        assert(keys@.map_values(|x: Vec<u8>| x@) =~= Seq::<Seq<u8>>::empty());
        while i < entries.len()
            invariant
                i <= entries@.len(),
                es == list_view(entries@),
                es == range_of(old(self)@.reverse, rpre@, rend@),
                rpre@ == vertex_reverse_prefix_v2_spec(space_id, vertex_id@),
                rend@ == range_end_spec(rpre@),
                self@ == old(self)@,
                es.len() == entries@.len(),
                c == self@.compressor,
                tag@ == tag_name.spec_bytes(),
                tag_plan(es.subrange(0, i as int), c, tag@) == Ok::<Seq<Seq<u8>>, ErrorView>(
                    keys@.map_values(|x: Vec<u8>| x@),
                ),
            decreases entries@.len() - i,
        {
            let ghost sub = es.subrange(0, i as int + 1);
            assert(sub.drop_last() =~= es.subrange(0, i as int));
            assert(sub.last() == (entries@[i as int].0@, entries@[i as int].1));
            let ghost before = keys@.map_values(|x: Vec<u8>| x@);
            let key = match self.decompress_key(entries[i].0.as_slice()) {
                Ok(k) => k,
                Err(x) => {
                    proof {
                        lemma_tag_plan_stops(es, i as int + 1, c, tag@);
                    }
                    return Err(x);
                },
            };
            match Self::parse_v2(key.as_slice()) {
                Some((_, name)) => {
                    if crate::compression::starts_with(name.as_str().as_bytes(), tag) {
                        keys.push(bytes_to_vec(entries[i].0.as_slice()));
                        assert(keys@.map_values(|x: Vec<u8>| x@) =~= before.push(entries@[i as int].0@));
                    }
                },
                None => {},
            }
            i = i + 1;
        }
        assert(es.subrange(0, i as int) =~= es);
        Self::remove_all(&mut self.reverse_index, &keys);
        Ok(())
    }

    /// Removes every forward entry of the index `index_name`.
    pub fn clear_tag_index(&mut self, space_id: u64, index_name: &str) -> (r: Result<(), StorageError>)
        ensures
            r is Ok,
            final(self)@.compressor == old(self)@.compressor,
            final(self)@.reverse == old(self)@.reverse,
            ({
                let pre = index_prefix_spec(space_id, KEY_TYPE_VERTEX_FORWARD, index_name.spec_bytes());
                removed(
                    final(self)@.forward,
                    old(self)@.forward,
                    range_of(old(self)@.forward, pre, range_end_spec(pre)).map_values(
                        |e: (Seq<u8>, IndexEntry)| e.0,
                    ),
                )
            }),
    {
        let pre = IndexKeyCodec::build_vertex_index_prefix(space_id, index_name);
        let end = IndexKeyCodec::build_range_end(&pre);
        let entries = self.forward_index.range(pre.as_ref(), end.as_ref());
        let ghost es = list_view(entries@);
        let mut keys: Vec<Vec<u8>> = Vec::new();
        let mut i: usize = 0;
        while i < entries.len()
            invariant
                i <= entries@.len(),
                es == list_view(entries@),
                es.len() == entries@.len(),
                keys@.map_values(|x: Vec<u8>| x@) == es.subrange(0, i as int).map_values(|e: (Seq<u8>, IndexEntry)| e.0),
            decreases entries@.len() - i,
        {
            let ghost before = keys@.map_values(|x: Vec<u8>| x@);
            keys.push(bytes_to_vec(entries[i].0.as_slice()));
            assert(keys@.map_values(|x: Vec<u8>| x@) =~= before.push(entries@[i as int].0@));
            assert(es.subrange(0, i as int + 1).map_values(|e: (Seq<u8>, IndexEntry)| e.0) =~= es.subrange(
                0,
                i as int,
            ).map_values(|e: (Seq<u8>, IndexEntry)| e.0).push(es[i as int].0));
            i = i + 1;
        }
        assert(es.subrange(0, i as int) =~= es);
        Self::remove_all(&mut self.forward_index, &keys);
        Ok(())
    }

    fn load_into(map: &mut EntryMap, data: &[u8]) -> (r: StorageResult<()>)
        requires
            data@.len() <= isize::MAX,
        ensures
            data@.len() < 8 ==> final(map)@ == old(map)@ && (r matches Err(e) && e@ == ErrorView::DbError(
                truncated_message(),
            )),
            data@.len() >= 8 ==> {
                let (es, complete) = entries_from(data@, 8, crate::bytes::u64_at(data@, 0) as nat);
                &&& forall|k: Seq<u8>| #[trigger] find(final(map)@, k) == find(es, k)
                &&& complete ==> r is Ok
                &&& !complete ==> (r matches Err(e) && e@ == ErrorView::DbError(truncated_message()))
            },
    {
        let (entries, res) = decode_entries(data);
        if data.len() < 8 {
            return res;
        }
        let ghost es = list_view(entries@);
        map.clear();
        let mut i: usize = 0;
        while i < entries.len()
            invariant
                i <= entries@.len(),
                es == list_view(entries@),
                forall|k: Seq<u8>| #[trigger] find(map@, k) == find(es.subrange(0, i as int), k),
            decreases entries@.len() - i,
        {
            let ghost before = map@;
            let _ = map.insert(bytes_to_vec(entries[i].0.as_slice()), entries[i].1);
            proof {
                let sub = es.subrange(0, i as int + 1);
                assert(sub.drop_last() =~= es.subrange(0, i as int));
                assert(sub.last() == (entries@[i as int].0@, entries@[i as int].1));
            }
            i = i + 1;
        }
        assert(es.subrange(0, i as int) =~= es);
        res
    }

    /// The persisted form of the forward entries.
    pub fn forward_index_bytes(&self) -> (r: Vec<u8>)
        ensures
            r@ == file_bytes(self@.forward),
    {
        encode_entries(&self.forward_index.entries())
    }

    /// The persisted form of the reverse entries.
    pub fn reverse_index_bytes(&self) -> (r: Vec<u8>)
        ensures
            r@ == file_bytes(self@.reverse),
    {
        encode_entries(&self.reverse_index.entries())
    }

    /// Replaces the forward entries by those persisted in `data`. Data too short to
    /// hold the count changes nothing; otherwise the entries are replaced by those
    /// read before the data ran out, and a short read is reported.
    pub fn load_forward_index(&mut self, data: &[u8]) -> (r: StorageResult<()>)
        requires
            data@.len() <= isize::MAX,
        ensures
            final(self)@.compressor == old(self)@.compressor,
            final(self)@.reverse == old(self)@.reverse,
            data@.len() < 8 ==> final(self)@.forward == old(self)@.forward && (r matches Err(e) && e@
                == ErrorView::DbError(truncated_message())),
            data@.len() >= 8 ==> {
                let (es, complete) = entries_from(data@, 8, crate::bytes::u64_at(data@, 0) as nat);
                &&& forall|k: Seq<u8>| #[trigger] find(final(self)@.forward, k) == find(es, k)
                &&& complete ==> r is Ok
                &&& !complete ==> (r matches Err(e) && e@ == ErrorView::DbError(truncated_message()))
            },
    {
        Self::load_into(&mut self.forward_index, data)
    }

    /// Replaces the reverse entries by those persisted in `data`, as
    /// `load_forward_index` does for the forward entries.
    pub fn load_reverse_index(&mut self, data: &[u8]) -> (r: StorageResult<()>)
        requires
            data@.len() <= isize::MAX,
        ensures
            final(self)@.compressor == old(self)@.compressor,
            final(self)@.forward == old(self)@.forward,
            data@.len() < 8 ==> final(self)@.reverse == old(self)@.reverse && (r matches Err(e) && e@
                == ErrorView::DbError(truncated_message())),
            data@.len() >= 8 ==> {
                let (es, complete) = entries_from(data@, 8, crate::bytes::u64_at(data@, 0) as nat);
                &&& forall|k: Seq<u8>| #[trigger] find(final(self)@.reverse, k) == find(es, k)
                &&& complete ==> r is Ok
                &&& !complete ==> (r matches Err(e) && e@ == ErrorView::DbError(truncated_message()))
            },
    {
        Self::load_into(&mut self.reverse_index, data)
    }

    /// Looks up, at `MAX_TIMESTAMP`, the vertices whose value under `index` lies in
    /// `[start_value, end_value)`; see `lookup_tag_index_range_mvcc`.
    pub fn lookup_tag_index_range(
        &self,
        space_id: u64,
        index: &Index,
        start_value: &[u8],
        end_value: &[u8],
        low_id: &[u8],
        high_id: &[u8],
    ) -> (r: Result<Vec<Vec<u8>>, StorageError>)
        ensures
            ({
                let nb = encode_utf8(index@.name);
                let lo = vertex_index_key_spec(space_id, nb, start_value@, low_id@);
                let hi = vertex_index_key_spec(space_id, nb, end_value@, high_id@);
                let p = index_prefix_spec(space_id, KEY_TYPE_VERTEX_FORWARD, nb).len() as int;
                match (r, range_scan(range_of(self@.forward, lo, hi), self@.compressor, p, start_value@, end_value@, MAX_TIMESTAMP)) {
                    (Ok(v), Ok(t)) => v@.map_values(|x: Vec<u8>| x@) == t,
                    (Err(e), Err(x)) => e@ == x,
                    _ => false,
                }
            }),
    {
        self.lookup_tag_index_range_mvcc(space_id, index, start_value, end_value, low_id, high_id, MAX_TIMESTAMP)
    }

    /// Looks up the vertices whose value under `index` lies in `[start_value,
    /// end_value)` of byte order, as seen at `read_ts`. The scan covers the forward
    /// keys from that of (`start_value`, `low_id`) up to that of (`end_value`,
    /// `high_id`), where the ids are the serialized smallest and largest vertex ids.
    pub fn lookup_tag_index_range_mvcc(
        &self,
        space_id: u64,
        index: &Index,
        start_value: &[u8],
        end_value: &[u8],
        low_id: &[u8],
        high_id: &[u8],
        read_ts: Timestamp,
    ) -> (r: Result<Vec<Vec<u8>>, StorageError>)
        ensures
            ({
                let nb = encode_utf8(index@.name);
                let lo = vertex_index_key_spec(space_id, nb, start_value@, low_id@);
                let hi = vertex_index_key_spec(space_id, nb, end_value@, high_id@);
                let p = index_prefix_spec(space_id, KEY_TYPE_VERTEX_FORWARD, nb).len() as int;
                match (r, range_scan(range_of(self@.forward, lo, hi), self@.compressor, p, start_value@, end_value@, read_ts)) {
                    (Ok(v), Ok(t)) => v@.map_values(|x: Vec<u8>| x@) == t,
                    (Err(e), Err(x)) => e@ == x,
                    _ => false,
                }
            }),
    {
        let prefix = IndexKeyCodec::build_vertex_index_prefix(space_id, index.name.as_str());
        let p = prefix.0.len();
        let lo = IndexKeyCodec::build_vertex_index_key(space_id, index.name.as_str(), start_value, low_id);
        let hi = IndexKeyCodec::build_vertex_index_key(space_id, index.name.as_str(), end_value, high_id);
        let entries = self.forward_index.range(lo.as_ref(), hi.as_ref());
        let ghost es = list_view(entries@);
        let ghost c = self@.compressor;
        let mut found: Vec<Vec<u8>> = Vec::new();
        let mut i: usize = 0;
        assert(es.subrange(0, 0) =~= Seq::<(Seq<u8>, IndexEntry)>::empty());
        assert(found@.map_values(|x: Vec<u8>| x@) =~= Seq::<Seq<u8>>::empty());
        while i < entries.len()
            invariant
                i <= entries@.len(),
                es == list_view(entries@),
                es == range_of(self@.forward, lo@, hi@),
                lo@ == vertex_index_key_spec(space_id, encode_utf8(index@.name), start_value@, low_id@),
                hi@ == vertex_index_key_spec(space_id, encode_utf8(index@.name), end_value@, high_id@),
                p == index_prefix_spec(space_id, KEY_TYPE_VERTEX_FORWARD, encode_utf8(index@.name)).len(),
                es.len() == entries@.len(),
                c == self@.compressor,
                range_scan(es.subrange(0, i as int), c, p as int, start_value@, end_value@, read_ts) == Ok::<
                    Seq<Seq<u8>>,
                    ErrorView,
                >(found@.map_values(|x: Vec<u8>| x@)),
            decreases entries@.len() - i,
        {
            let ghost sub = es.subrange(0, i as int + 1);
            assert(sub.drop_last() =~= es.subrange(0, i as int));
            assert(sub.last() == (entries@[i as int].0@, entries@[i as int].1));
            let ghost before = found@.map_values(|x: Vec<u8>| x@);
            if entries[i].1.is_visible_at(read_ts) {
                let key = match self.decompress_key(entries[i].0.as_slice()) {
                    Ok(k) => k,
                    Err(x) => {
                        proof {
                            lemma_range_scan_stops(es, i as int + 1, c, p as int, start_value@, end_value@, read_ts);
                        }
                        return Err(x);
                    },
                };
                match Self::parse_vid(key.as_slice()) {
                    Some(vid) => {
                        if key.len() > p && key.len() - p > 4 {
                            let plen = read_u32_le(key.as_slice(), p) as usize;
                            if plen <= key.len() - p - 4 {
                                let stored = copy_range(key.as_slice(), p + 4, p + 4 + plen);
                                let below_start = crate::entry_map::byte_order(stored.as_slice(), start_value) == -1;
                                let below_end = crate::entry_map::byte_order(stored.as_slice(), end_value) == -1;
                                if !below_start && below_end {
                                    found.push(vid);
                                    assert(found@.map_values(|x: Vec<u8>| x@) =~= before.push(vid@));
                                }
                            }
                        }
                    },
                    None => {},
                }
            }
            i = i + 1;
        }
        assert(es.subrange(0, i as int) =~= es);
        Ok(found)
    }

    /// Counts the forward entries of the index `index_name`: all, live and deleted.
    pub fn estimate_index_entries(&self, space_id: u64, index_name: &str) -> (r: Result<IndexEstimate, StorageError>)
        ensures
            ({
                let pre = index_prefix_spec(space_id, KEY_TYPE_VERTEX_FORWARD, index_name.spec_bytes());
                let (t, v, d) = entry_counts(range_of(self@.forward, pre, range_end_spec(pre)));
                r matches Ok(est) && est.total_entries == t && est.visible_entries == v && est.tombstone_entries == d
            }),
    {
        let pre = IndexKeyCodec::build_vertex_index_prefix(space_id, index_name);
        let end = IndexKeyCodec::build_range_end(&pre);
        let entries = self.forward_index.range(pre.as_ref(), end.as_ref());
        let ghost es = list_view(entries@);
        let mut total: usize = 0;
        let mut visible: usize = 0;
        let mut tombstones: usize = 0;
        let mut i: usize = 0;
        while i < entries.len()
            invariant
                i <= entries@.len(),
                es == list_view(entries@),
                es.len() == entries@.len(),
                (total as nat, visible as nat, tombstones as nat) == entry_counts(es.subrange(0, i as int)),
                total == i,
                visible + tombstones == total,
            decreases entries@.len() - i,
        {
            assert(es.subrange(0, i as int + 1).drop_last() =~= es.subrange(0, i as int));
            assert(es[i as int].1 == entries@[i as int].1);
            total = total + 1;
            if entries[i].1.deleted_ts.is_some() {
                tombstones = tombstones + 1;
            } else {
                visible = visible + 1;
            }
            proof {
                let (t0, v0, d0) = entry_counts(es.subrange(0, i as int));
                assert(v0 + d0 == t0) by {
                    lemma_counts_add_up(es.subrange(0, i as int));
                }
            }
            i = i + 1;
        }
        assert(es.subrange(0, i as int) =~= es);
        Ok(IndexEstimate { total_entries: total, visible_entries: visible, tombstone_entries: tombstones })
    }

    /// Lists, at `MAX_TIMESTAMP`, at most `limit` (value, vertex id) pairs of
    /// `index`; see `scan_index_entries_mvcc`.
    pub fn scan_index_entries(&self, space_id: u64, index: &Index, limit: usize) -> (r: Result<
        Vec<(Vec<u8>, Vec<u8>)>,
        StorageError,
    >)
        ensures
            ({
                let pre = index_prefix_spec(space_id, KEY_TYPE_VERTEX_FORWARD, encode_utf8(index@.name));
                match (r, entry_scan(range_of(self@.forward, pre, range_end_spec(pre)), self@.compressor, pre.len() as int, limit as nat, MAX_TIMESTAMP)) {
                    (Ok(v), Ok(t)) => v@.map_values(|x: (Vec<u8>, Vec<u8>)| (x.0@, x.1@)) == t,
                    (Err(e), Err(x)) => e@ == x,
                    _ => false,
                }
            }),
    {
        self.scan_index_entries_mvcc(space_id, index, limit, MAX_TIMESTAMP)
    }

    /// Lists, in key order and as seen at `read_ts`, at most `limit` pairs of a
    /// serialized value and vertex id held by the visible forward entries of `index`.
    pub fn scan_index_entries_mvcc(&self, space_id: u64, index: &Index, limit: usize, read_ts: Timestamp) -> (r:
        Result<Vec<(Vec<u8>, Vec<u8>)>, StorageError>)
        ensures
            ({
                let pre = index_prefix_spec(space_id, KEY_TYPE_VERTEX_FORWARD, encode_utf8(index@.name));
                match (r, entry_scan(range_of(self@.forward, pre, range_end_spec(pre)), self@.compressor, pre.len() as int, limit as nat, read_ts)) {
                    (Ok(v), Ok(t)) => v@.map_values(|x: (Vec<u8>, Vec<u8>)| (x.0@, x.1@)) == t,
                    (Err(e), Err(x)) => e@ == x,
                    _ => false,
                }
            }),
    {
        let pre = IndexKeyCodec::build_vertex_index_prefix(space_id, index.name.as_str());
        let end = IndexKeyCodec::build_range_end(&pre);
        let p = pre.0.len();
        let entries = self.forward_index.range(pre.as_ref(), end.as_ref());
        let ghost es = list_view(entries@);
        let ghost c = self@.compressor;
        let mut found: Vec<(Vec<u8>, Vec<u8>)> = Vec::new();
        let mut i: usize = 0;
        assert(es.subrange(0, 0) =~= Seq::<(Seq<u8>, IndexEntry)>::empty());
        assert(found@.map_values(|x: (Vec<u8>, Vec<u8>)| (x.0@, x.1@)) =~= Seq::<(Seq<u8>, Seq<u8>)>::empty());
        while i < entries.len()
            invariant
                i <= entries@.len(),
                es == list_view(entries@),
                es == range_of(self@.forward, pre@, end@),
                pre@ == index_prefix_spec(space_id, KEY_TYPE_VERTEX_FORWARD, encode_utf8(index@.name)),
                end@ == range_end_spec(pre@),
                es.len() == entries@.len(),
                c == self@.compressor,
                p == pre@.len(),
                entry_scan(es.subrange(0, i as int), c, p as int, limit as nat, read_ts) == Ok::<
                    Seq<(Seq<u8>, Seq<u8>)>,
                    ErrorView,
                >(found@.map_values(|x: (Vec<u8>, Vec<u8>)| (x.0@, x.1@))),
            decreases entries@.len() - i,
        {
            if found.len() >= limit {
                proof {
                    lemma_entry_scan_stops(es, i as int, c, p as int, limit as nat, read_ts);
                }
                return Ok(found);
            }
            let ghost sub = es.subrange(0, i as int + 1);
            assert(sub.drop_last() =~= es.subrange(0, i as int));
            assert(sub.last() == (entries@[i as int].0@, entries@[i as int].1));
            let ghost before = found@.map_values(|x: (Vec<u8>, Vec<u8>)| (x.0@, x.1@));
            if entries[i].1.is_visible_at(read_ts) {
                let key = match self.decompress_key(entries[i].0.as_slice()) {
                    Ok(k) => k,
                    Err(x) => {
                        proof {
                            lemma_entry_scan_stops(es, i as int + 1, c, p as int, limit as nat, read_ts);
                        }
                        return Err(x);
                    },
                };
                match Self::parse_vid(key.as_slice()) {
                    Some(vid) => {
                        if key.len() > p && key.len() - p > 4 {
                            let plen = read_u32_le(key.as_slice(), p) as usize;
                            if plen <= key.len() - p - 4 {
                                let stored = copy_range(key.as_slice(), p + 4, p + 4 + plen);
                                let ghost sv = stored@;
                                let ghost vv = vid@;
                                found.push((stored, vid));
                                assert(found@.map_values(|x: (Vec<u8>, Vec<u8>)| (x.0@, x.1@)) =~= before.push((sv, vv)));
                            }
                        }
                    },
                    None => {},
                }
            }
            i = i + 1;
        }
        assert(es.subrange(0, i as int) =~= es);
        Ok(found)
    }

    /// Looks up the vertices indexed under `value` by `index`, as seen at `read_ts`;
    /// `None` where a stored key's value length field points past its end.
    pub fn try_lookup_tag_index_mvcc(&self, space_id: u64, index: &Index, value: &[u8], read_ts: Timestamp) -> (r:
        Option<Result<Vec<Vec<u8>>, StorageError>>)
        ensures
            scan_matches(r, lookup_spec(self@, space_id, index@.name, value@, read_ts)),
    {
        let prefix = IndexKeyCodec::build_vertex_index_prefix(space_id, index.name.as_str());
        let end = IndexKeyCodec::build_range_end(&prefix);
        self.lookup_in(prefix.as_ref(), end.as_ref(), prefix.0.len(), value, read_ts)
    }

    /// Looks up the vertices indexed under `value` by `index`, as seen at `read_ts`:
    /// in key order, the vertex ids of the visible forward entries of the index
    /// that hold `value`.
    pub fn lookup_tag_index_mvcc(&self, space_id: u64, index: &Index, value: &[u8], read_ts: Timestamp) -> (r: Result<
        Vec<Vec<u8>>,
        StorageError,
    >)
        requires
            lookup_spec(self@, space_id, index@.name, value@, read_ts) is Some,
        ensures
            scan_matches(Some(r), lookup_spec(self@, space_id, index@.name, value@, read_ts)),
    {
        match self.try_lookup_tag_index_mvcc(space_id, index, value, read_ts) {
            Some(r) => r,
            None => {
                proof {
                    assert(false);
                }
                Ok(Vec::new())
            },
        }
    }

    /// Looks up the vertices indexed under `value` by `index`, as seen at `MAX_TIMESTAMP`.
    pub fn lookup_tag_index(&self, space_id: u64, index: &Index, value: &[u8]) -> (r: Result<Vec<Vec<u8>>, StorageError>)
        requires
            lookup_spec(self@, space_id, index@.name, value@, MAX_TIMESTAMP) is Some,
        ensures
            scan_matches(Some(r), lookup_spec(self@, space_id, index@.name, value@, MAX_TIMESTAMP)),
    {
        self.lookup_tag_index_mvcc(space_id, index, value, MAX_TIMESTAMP)
    }
}

/// The keys of the entries of `es` that an incremental collection at `safe_ts`
/// removes: in list order, stale entries, until `limit` of them are taken.
pub open spec fn stale_keys(es: EntryList, safe_ts: Timestamp, limit: nat) -> Seq<Seq<u8>>
    decreases es.len(),
{
    if es.len() == 0 {
        Seq::empty()
    } else {
        let f = stale_keys(es.drop_last(), safe_ts, limit);
        if f.len() < limit && is_stale(es.last().1, safe_ts) {
            f.push(es.last().0)
        } else {
            f
        }
    }
}

proof fn lemma_stale_keys_len(es: EntryList, safe_ts: Timestamp, limit: nat)
    ensures
        stale_keys(es, safe_ts, limit).len() <= limit,
    decreases es.len(),
{
    if es.len() > 0 {
        lemma_stale_keys_len(es.drop_last(), safe_ts, limit);
    }
}

/// The forward keys with native vertex ids that writing `props` for the vertex
/// `vid` creates.
pub open spec fn native_forward_keys(space_id: u64, name: Seq<u8>, props: Seq<Seq<u8>>, vid: u64) -> Seq<Seq<u8>> {
    props.map_values(|p: Seq<u8>| vertex_index_key_native_spec(space_id, name, p, vid))
}

impl VertexIndexManager {
    /// Inserts `e` under every listed key of `map`.
    fn insert_all(map: &mut EntryMap, keys: &Vec<Vec<u8>>, e: IndexEntry)
        ensures
            forall|k: Seq<u8>| #[trigger]
                find(final(map)@, k) == if keys@.map_values(|x: Vec<u8>| x@).contains(k) {
                    Some(e)
                } else {
                    find(old(map)@, k)
                },
    {
        let ghost ks = keys@.map_values(|x: Vec<u8>| x@);
        let ghost start = map@;
        let mut i: usize = 0;
        while i < keys.len()
            invariant
                i <= keys@.len(),
                ks == keys@.map_values(|x: Vec<u8>| x@),
                forall|k: Seq<u8>| #[trigger]
                    find(map@, k) == if ks.subrange(0, i as int).contains(k) {
                        Some(e)
                    } else {
                        find(start, k)
                    },
            decreases keys@.len() - i,
        {
            let ghost before = map@;
            let _ = map.insert(bytes_to_vec(keys[i].as_slice()), e);
            proof {
                let ki = ks[i as int];
                assert(keys@[i as int]@ == ki);
                assert forall|k: Seq<u8>| #[trigger]
                    find(map@, k) == if ks.subrange(0, i as int + 1).contains(k) {
                        Some(e)
                    } else {
                        find(start, k)
                    } by {
                    assert(find(before, k) == if ks.subrange(0, i as int).contains(k) {
                        Some(e)
                    } else {
                        find(start, k)
                    });
                    if k == ki {
                        assert(ks.subrange(0, i as int + 1)[i as int] == k);
                    } else {
                        if ks.subrange(0, i as int + 1).contains(k) {
                            let j = choose|j: int| 0 <= j < i + 1 && #[trigger] ks.subrange(0, i as int + 1)[j] == k;
                            assert(ks.subrange(0, i as int)[j] == k);
                        }
                        if ks.subrange(0, i as int).contains(k) {
                            let j = choose|j: int| 0 <= j < i && #[trigger] ks.subrange(0, i as int)[j] == k;
                            assert(ks.subrange(0, i as int + 1)[j] == k);
                        }
                    }
                }
            }
            i = i + 1;
        }
        assert(ks.subrange(0, i as int) =~= ks);
    }

    /// The keys of `map` that an incremental collection removes; see `stale_keys`.
    fn collect_stale(map: &EntryMap, safe_ts: Timestamp, limit: usize) -> (r: Vec<Vec<u8>>)
        ensures
            r@.map_values(|x: Vec<u8>| x@) == stale_keys(map@, safe_ts, limit as nat),
    {
        let entries = map.entries();
        let ghost es = list_view(entries@);
        let mut out: Vec<Vec<u8>> = Vec::new();
        let mut i: usize = 0;
        assert(es.subrange(0, 0) =~= Seq::<(Seq<u8>, IndexEntry)>::empty());
        assert(out@.map_values(|x: Vec<u8>| x@) =~= Seq::<Seq<u8>>::empty());
        while i < entries.len()
            invariant
                i <= entries@.len(),
                es == list_view(entries@),
                es == map@,
                es.len() == entries@.len(),
                out@.map_values(|x: Vec<u8>| x@) == stale_keys(es.subrange(0, i as int), safe_ts, limit as nat),
            decreases entries@.len() - i,
        {
            let ghost sub = es.subrange(0, i as int + 1);
            assert(sub.drop_last() =~= es.subrange(0, i as int));
            assert(sub.last() == (entries@[i as int].0@, entries@[i as int].1));
            let ghost before = out@.map_values(|x: Vec<u8>| x@);
            assert(out@.len() == before.len());
            if out.len() >= limit {
                proof {
                    lemma_stale_stops(es, i as int, safe_ts, limit as nat);
                }
                return out;
            }
            let stale = match entries[i].1.deleted_ts {
                Some(d) => d < safe_ts,
                None => false,
            };
            if stale {
                out.push(bytes_to_vec(entries[i].0.as_slice()));
                assert(out@.map_values(|x: Vec<u8>| x@) =~= before.push(entries@[i as int].0@));
            }
            i = i + 1;
        }
        assert(es.subrange(0, i as int) =~= es);
        out
    }

    /// Removes at most `batch_size` entries deleted before `safe_ts`: first from the
    /// forward entries, in key order, then, if fewer were found there, from the
    /// reverse entries. Returns how many went.
    pub fn gc_tombstones_incremental(&mut self, safe_ts: Timestamp, batch_size: usize) -> (r: Result<
        usize,
        StorageError,
    >)
        ensures
            final(self)@.compressor == old(self)@.compressor,
            ({
                let fk = stale_keys(old(self)@.forward, safe_ts, batch_size as nat);
                let rk = stale_keys(old(self)@.reverse, safe_ts, (batch_size - fk.len()) as nat);
                &&& removed(final(self)@.forward, old(self)@.forward, fk)
                &&& fk.len() >= batch_size ==> final(self)@.reverse == old(self)@.reverse && r == Ok::<
                    usize,
                    StorageError,
                >(fk.len() as usize)
                &&& fk.len() < batch_size ==> removed(final(self)@.reverse, old(self)@.reverse, rk) && r == Ok::<
                    usize,
                    StorageError,
                >((fk.len() + rk.len()) as usize)
            }),
    {
        let fkeys = Self::collect_stale(&self.forward_index, safe_ts, batch_size);
        proof {
            lemma_stale_keys_len(self@.forward, safe_ts, batch_size as nat);
        }
        let total = fkeys.len();
        assert(total == stale_keys(old(self)@.forward, safe_ts, batch_size as nat).len());
        Self::remove_all(&mut self.forward_index, &fkeys);
        if total >= batch_size {
            return Ok(total);
        }
        let remaining = batch_size - total;
        let rkeys = Self::collect_stale(&self.reverse_index, safe_ts, remaining);
        proof {
            lemma_stale_keys_len(self@.reverse, safe_ts, remaining as nat);
        }
        let more = rkeys.len();
        assert(more == stale_keys(old(self)@.reverse, safe_ts, remaining as nat).len());
        Self::remove_all(&mut self.reverse_index, &rkeys);
        Ok(total + more)
    }

    /// Writes, at `MAX_TIMESTAMP`, the index entries of a vertex with a native id.
    pub fn update_vertex_indexes_native(
        &mut self,
        space_id: u64,
        vertex_id: u64,
        index_name: &str,
        props: &[(String, Vec<u8>)],
    ) -> (r: Result<(), StorageError>)
        ensures
            r is Ok,
            final(self)@.compressor == old(self)@.compressor,
            forall|k: Seq<u8>| #[trigger]
                find(final(self)@.forward, k) == if native_forward_keys(
                    space_id,
                    index_name.spec_bytes(),
                    prop_values(props@),
                    vertex_id,
                ).contains(k) {
                    Some(fresh_entry(MAX_TIMESTAMP))
                } else {
                    find(old(self)@.forward, k)
                },
            forall|k: Seq<u8>| #[trigger]
                find(final(self)@.reverse, k) == if props@.len() > 0 && k == vertex_reverse_key_native_spec(
                    space_id,
                    vertex_id,
                    index_name.spec_bytes(),
                ) {
                    Some(fresh_entry(MAX_TIMESTAMP))
                } else {
                    find(old(self)@.reverse, k)
                },
    {
        self.update_vertex_indexes_native_mvcc(space_id, vertex_id, index_name, props, MAX_TIMESTAMP)
    }

    /// Writes the index entries of a vertex with a native id: for each property, a
    /// forward entry under its value and a reverse entry for the vertex and index,
    /// both created at `write_ts`. These keys are stored as they are, uncompressed.
    pub fn update_vertex_indexes_native_mvcc(
        &mut self,
        space_id: u64,
        vertex_id: u64,
        index_name: &str,
        props: &[(String, Vec<u8>)],
        write_ts: Timestamp,
    ) -> (r: Result<(), StorageError>)
        ensures
            r is Ok,
            final(self)@.compressor == old(self)@.compressor,
            forall|k: Seq<u8>| #[trigger]
                find(final(self)@.forward, k) == if native_forward_keys(
                    space_id,
                    index_name.spec_bytes(),
                    prop_values(props@),
                    vertex_id,
                ).contains(k) {
                    Some(fresh_entry(write_ts))
                } else {
                    find(old(self)@.forward, k)
                },
            forall|k: Seq<u8>| #[trigger]
                find(final(self)@.reverse, k) == if props@.len() > 0 && k == vertex_reverse_key_native_spec(
                    space_id,
                    vertex_id,
                    index_name.spec_bytes(),
                ) {
                    Some(fresh_entry(write_ts))
                } else {
                    find(old(self)@.reverse, k)
                },
    {
        let ghost fks = native_forward_keys(space_id, index_name.spec_bytes(), prop_values(props@), vertex_id);
        let ghost rk = vertex_reverse_key_native_spec(space_id, vertex_id, index_name.spec_bytes());
        let mut fkeys: Vec<Vec<u8>> = Vec::new();
        let mut rkeys: Vec<Vec<u8>> = Vec::new();
        let mut i: usize = 0;
        assert(fkeys@.map_values(|x: Vec<u8>| x@) =~= fks.subrange(0, 0));
        while i < props.len()
            invariant
                i <= props@.len(),
                fks == native_forward_keys(space_id, index_name.spec_bytes(), prop_values(props@), vertex_id),
                rk == vertex_reverse_key_native_spec(space_id, vertex_id, index_name.spec_bytes()),
                fkeys@.map_values(|x: Vec<u8>| x@) == fks.subrange(0, i as int),
                rkeys@.len() == i,
                forall|j: int| 0 <= j < i ==> #[trigger] rkeys@[j]@ == rk,
            decreases props@.len() - i,
        {
            let fkey = KeyBuilder::build_vertex_index_key_native(space_id, index_name, props[i].1.as_slice(), vertex_id);
            let rkey = KeyBuilder::build_vertex_reverse_key_native(space_id, vertex_id, index_name);
            let ghost before = fkeys@.map_values(|x: Vec<u8>| x@);
            proof {
                assert(prop_values(props@)[i as int] == props@[i as int].1@);
                assert(fkey@ == fks[i as int]);
            }
            let ghost fv = fkey@;
            fkeys.push(fkey.0);
            rkeys.push(rkey.0);
            assert(fkeys@.map_values(|x: Vec<u8>| x@) =~= before.push(fv));
            assert(fkeys@.map_values(|x: Vec<u8>| x@) =~= fks.subrange(0, i as int + 1));
            i = i + 1;
        }
        assert(fks.subrange(0, i as int) =~= fks);
        proof {
            let rs = rkeys@.map_values(|x: Vec<u8>| x@);
            assert forall|k: Seq<u8>| rs.contains(k) <==> (props@.len() > 0 && k == rk) by {
                if rs.contains(k) {
                    let j = choose|j: int| 0 <= j < rs.len() && rs[j] == k;
                    assert(rkeys@[j]@ == rk);
                }
                if props@.len() > 0 && k == rk {
                    assert(rs[0] == rkeys@[0]@);
                }
            }
        }
        let entry = IndexEntry::new(write_ts);
        Self::insert_all(&mut self.forward_index, &fkeys, entry);
        Self::insert_all(&mut self.reverse_index, &rkeys, entry);
        Ok(())
    }
}

proof fn lemma_stale_stops(es: EntryList, n: int, safe_ts: Timestamp, limit: nat)
    requires
        0 <= n <= es.len(),
        stale_keys(es.subrange(0, n), safe_ts, limit).len() >= limit,
    ensures
        stale_keys(es, safe_ts, limit) == stale_keys(es.subrange(0, n), safe_ts, limit),
    decreases es.len() - n,
{
    if n < es.len() {
        let t = es.subrange(0, n + 1);
        assert(t.drop_last() =~= es.subrange(0, n));
        lemma_stale_stops(es, n + 1, safe_ts, limit);
    } else {
        assert(es.subrange(0, n) =~= es);
    }
}

/// Reading the native vertex id of a forward key; keys longer than a slice can be
/// are not keys.
pub open spec fn native_vid_of(key: Seq<u8>) -> Result<u64, ParseFailure> {
    if key.len() <= isize::MAX {
        parse_vertex_id_native_spec(key)
    } else {
        Err(ParseFailure::BadName)
    }
}

/// Reading the native vertex id and index name of a reverse key.
pub open spec fn native_rev_of(key: Seq<u8>) -> Result<(u64, Seq<char>), ParseFailure> {
    if key.len() <= isize::MAX {
        parse_vertex_reverse_native_spec(key)
    } else {
        Err(ParseFailure::BadName)
    }
}

/// The forward keys among `es` that deleting the vertex `vid` at `ts` marks, for
/// native ids: visible entries whose key holds `vid`.
pub open spec fn native_forward_matches(es: EntryList, vid: u64, ts: Timestamp) -> Seq<Seq<u8>>
    decreases es.len(),
{
    if es.len() == 0 {
        Seq::empty()
    } else {
        let f = native_forward_matches(es.drop_last(), vid, ts);
        if visible_at(es.last().1, ts) && native_vid_of(es.last().0) == Ok::<u64, ParseFailure>(vid) {
            f.push(es.last().0)
        } else {
            f
        }
    }
}

/// The reverse and forward keys that deleting the vertex `vid` at `ts` marks, for
/// native ids, from the reverse entries `es` of the vertex: each visible one, and
/// for each that names an index, the matching forward entries of that index.
pub open spec fn native_delete_plan(v: VertexIndexView, es: EntryList, space_id: u64, vid: u64, ts: Timestamp) -> (
    Seq<Seq<u8>>,
    Seq<Seq<u8>>,
)
    decreases es.len(),
{
    if es.len() == 0 {
        (Seq::empty(), Seq::empty())
    } else {
        let (rk, fk) = native_delete_plan(v, es.drop_last(), space_id, vid, ts);
        let (k, e) = es.last();
        if !visible_at(e, ts) {
            (rk, fk)
        } else {
            match native_rev_of(k) {
                Ok((_, name)) => {
                    let pre = index_prefix_spec(space_id, KEY_TYPE_VERTEX_FORWARD, encode_utf8(name));
                    (rk.push(k), fk + native_forward_matches(range_of(v.forward, pre, range_end_spec(pre)), vid, ts))
                },
                Err(_) => (rk.push(k), fk),
            }
        }
    }
}

/// The native vertex ids that a lookup of `value` finds among the forward entries
/// `es`, at `read_ts`: visible entries whose key holds a native vertex id and, right
/// after the index prefix of length `p`, the value. `None` where the value's length
/// field points past the end of the key, so that the value cannot be read.
pub open spec fn native_lookup_scan(es: EntryList, p: int, value: Seq<u8>, read_ts: Timestamp) -> Option<Seq<u64>>
    decreases es.len(),
{
    if es.len() == 0 {
        Some(Seq::empty())
    } else {
        match native_lookup_scan(es.drop_last(), p, value, read_ts) {
            None => None,
            Some(found) => {
                let (key, e) = es.last();
                if !visible_at(e, read_ts) {
                    Some(found)
                } else {
                    match native_vid_of(key) {
                        Err(_) => Some(found),
                        Ok(vid) => if key.len() > p + 4 && u32_at(key, p) == value.len() {
                            if p + 4 + value.len() > key.len() {
                                None
                            } else if key.subrange(p + 4, p + 4 + value.len()) == value {
                                Some(found.push(vid))
                            } else {
                                Some(found)
                            }
                        } else {
                            Some(found)
                        },
                    }
                }
            },
        }
    }
}

/// A lookup of `value` with native ids in the index named `name`.
pub open spec fn native_lookup_spec(
    v: VertexIndexView,
    space_id: u64,
    name: Seq<char>,
    value: Seq<u8>,
    read_ts: Timestamp,
) -> Option<Seq<u64>> {
    let prefix = index_prefix_spec(space_id, KEY_TYPE_VERTEX_FORWARD, encode_utf8(name));
    native_lookup_scan(range_of(v.forward, prefix, range_end_spec(prefix)), prefix.len() as int, value, read_ts)
}

/// The native vertex ids that a range lookup finds among the forward entries `es`,
/// at `read_ts`: visible entries whose key holds a native vertex id and, after the
/// index prefix of length `p`, a value in `[start, end)` of byte order.
pub open spec fn native_range_scan(es: EntryList, p: int, start: Seq<u8>, end: Seq<u8>, read_ts: Timestamp) -> Seq<u64>
    decreases es.len(),
{
    if es.len() == 0 {
        Seq::empty()
    } else {
        let found = native_range_scan(es.drop_last(), p, start, end, read_ts);
        let (key, e) = es.last();
        if visible_at(e, read_ts) && native_vid_of(key) is Ok && key.len() > p + 4 && p + 4 + u32_at(key, p)
            <= key.len() && in_range(key.subrange(p + 4, p + 4 + u32_at(key, p)), start, end) {
            found.push(native_vid_of(key)->Ok_0)
        } else {
            found
        }
    }
}

proof fn lemma_native_scan_stops(es: EntryList, n: int, p: int, value: Seq<u8>, read_ts: Timestamp)
    requires
        0 <= n <= es.len(),
        native_lookup_scan(es.subrange(0, n), p, value, read_ts) is None,
    ensures
        native_lookup_scan(es, p, value, read_ts) is None,
    decreases es.len() - n,
{
    if n < es.len() {
        let t = es.subrange(0, n + 1);
        assert(t.drop_last() =~= es.subrange(0, n));
        lemma_native_scan_stops(es, n + 1, p, value, read_ts);
    } else {
        assert(es.subrange(0, n) =~= es);
    }
}

impl VertexIndexManager {
    fn parse_native_vid(key: &[u8]) -> (r: Option<u64>)
        ensures
            match native_vid_of(key@) {
                Ok(v) => r == Some(v),
                Err(_) => r is None,
            },
    {
        if key.len() > isize::MAX as usize {
            return None;
        }
        match KeyParser::parse_vertex_id_from_key_native(key) {
            Ok(v) => Some(v),
            Err(_) => None,
        }
    }

    fn parse_native_rev(key: &[u8]) -> (r: Option<(u64, String)>)
        ensures
            match native_rev_of(key@) {
                Ok((v, n)) => r matches Some(x) && x.0 == v && x.1@ == n,
                Err(_) => r is None,
            },
    {
        if key.len() > isize::MAX as usize {
            return None;
        }
        match KeyParser::parse_vertex_reverse_key_native(key) {
            Ok(x) => Some(x),
            Err(_) => None,
        }
    }

    fn native_forward_in(&self, lo: &[u8], hi: &[u8], vid: u64, ts: Timestamp) -> (r: Vec<Vec<u8>>)
        ensures
            r@.map_values(|x: Vec<u8>| x@) == native_forward_matches(range_of(self@.forward, lo@, hi@), vid, ts),
    {
        let entries = self.forward_index.range(lo, hi);
        let ghost es = list_view(entries@);
        let mut out: Vec<Vec<u8>> = Vec::new();
        let mut i: usize = 0;
        assert(es.subrange(0, 0) =~= Seq::<(Seq<u8>, IndexEntry)>::empty());
        assert(out@.map_values(|x: Vec<u8>| x@) =~= Seq::<Seq<u8>>::empty());
        while i < entries.len()
            invariant
                i <= entries@.len(),
                es == list_view(entries@),
                es == range_of(self@.forward, lo@, hi@),
                es.len() == entries@.len(),
                out@.map_values(|x: Vec<u8>| x@) == native_forward_matches(es.subrange(0, i as int), vid, ts),
            decreases entries@.len() - i,
        {
            let ghost sub = es.subrange(0, i as int + 1);
            assert(sub.drop_last() =~= es.subrange(0, i as int));
            assert(sub.last() == (entries@[i as int].0@, entries@[i as int].1));
            let ghost before = out@.map_values(|x: Vec<u8>| x@);
            if entries[i].1.is_visible_at(ts) {
                match Self::parse_native_vid(entries[i].0.as_slice()) {
                    Some(v) => {
                        if v == vid {
                            out.push(bytes_to_vec(entries[i].0.as_slice()));
                            assert(out@.map_values(|x: Vec<u8>| x@) =~= before.push(entries@[i as int].0@));
                        }
                    },
                    None => {},
                }
            }
            i = i + 1;
        }
        assert(es.subrange(0, i as int) =~= es);
        out
    }

    /// Deletes, at `MAX_TIMESTAMP`, the index entries of a vertex with a native id.
    pub fn delete_vertex_indexes_native(&mut self, space_id: u64, vertex_id: u64) -> (r: Result<(), StorageError>)
        ensures
            r is Ok,
            final(self)@.compressor == old(self)@.compressor,
            ({
                let pre = vertex_reverse_prefix_native_spec(space_id, vertex_id);
                let (rk, fk) = native_delete_plan(
                    old(self)@,
                    range_of(old(self)@.reverse, pre, range_end_spec(pre)),
                    space_id,
                    vertex_id,
                    MAX_TIMESTAMP,
                );
                &&& marked(final(self)@.reverse, old(self)@.reverse, rk, MAX_TIMESTAMP)
                &&& marked(final(self)@.forward, old(self)@.forward, fk, MAX_TIMESTAMP)
            }),
    {
        self.delete_vertex_indexes_native_mvcc(space_id, vertex_id, MAX_TIMESTAMP)
    }

    /// Deletes, at `write_ts`, the index entries of a vertex with a native id: each
    /// of its native reverse entries visible at `write_ts` and, for the index each
    /// one names, the visible forward entries that hold the vertex.
    pub fn delete_vertex_indexes_native_mvcc(&mut self, space_id: u64, vertex_id: u64, write_ts: Timestamp) -> (r:
        Result<(), StorageError>)
        ensures
            r is Ok,
            final(self)@.compressor == old(self)@.compressor,
            ({
                let pre = vertex_reverse_prefix_native_spec(space_id, vertex_id);
                let (rk, fk) = native_delete_plan(
                    old(self)@,
                    range_of(old(self)@.reverse, pre, range_end_spec(pre)),
                    space_id,
                    vertex_id,
                    write_ts,
                );
                &&& marked(final(self)@.reverse, old(self)@.reverse, rk, write_ts)
                &&& marked(final(self)@.forward, old(self)@.forward, fk, write_ts)
            }),
    {
        let rpre = KeyBuilder::build_vertex_reverse_prefix_native(space_id, vertex_id);
        let rend = IndexKeyCodec::build_range_end(&rpre);
        let entries = self.reverse_index.range(rpre.as_ref(), rend.as_ref());
        let ghost es = list_view(entries@);
        let ghost v = self@;
        let mut rkeys: Vec<Vec<u8>> = Vec::new();
        let mut fkeys: Vec<Vec<u8>> = Vec::new();
        let mut i: usize = 0;
        assert(es.subrange(0, 0) =~= Seq::<(Seq<u8>, IndexEntry)>::empty());
        assert(rkeys@.map_values(|x: Vec<u8>| x@) =~= Seq::<Seq<u8>>::empty());
        assert(fkeys@.map_values(|x: Vec<u8>| x@) =~= Seq::<Seq<u8>>::empty());
        while i < entries.len()
            invariant
                i <= entries@.len(),
                es == list_view(entries@),
                es == range_of(old(self)@.reverse, rpre@, rend@),
                rpre@ == vertex_reverse_prefix_native_spec(space_id, vertex_id),
                rend@ == range_end_spec(rpre@),
                es.len() == entries@.len(),
                v == self@,
                v == old(self)@,
                native_delete_plan(v, es.subrange(0, i as int), space_id, vertex_id, write_ts) == (
                    rkeys@.map_values(|x: Vec<u8>| x@),
                    fkeys@.map_values(|x: Vec<u8>| x@),
                ),
            decreases entries@.len() - i,
        {
            let ghost sub = es.subrange(0, i as int + 1);
            assert(sub.drop_last() =~= es.subrange(0, i as int));
            assert(sub.last() == (entries@[i as int].0@, entries@[i as int].1));
            let ghost rbefore = rkeys@.map_values(|x: Vec<u8>| x@);
            if entries[i].1.is_visible_at(write_ts) {
                rkeys.push(bytes_to_vec(entries[i].0.as_slice()));
                assert(rkeys@.map_values(|x: Vec<u8>| x@) =~= rbefore.push(entries@[i as int].0@));
                match Self::parse_native_rev(entries[i].0.as_slice()) {
                    Some((_, name)) => {
                        let pre = IndexKeyCodec::build_vertex_index_prefix(space_id, name.as_str());
                        let end = IndexKeyCodec::build_range_end(&pre);
                        let f = self.native_forward_in(pre.as_ref(), end.as_ref(), vertex_id, write_ts);
                        Self::append_keys(&mut fkeys, f);
                    },
                    None => {},
                }
            }
            i = i + 1;
        }
        assert(es.subrange(0, i as int) =~= es);
        Self::mark_all(&mut self.reverse_index, &rkeys, write_ts);
        Self::mark_all(&mut self.forward_index, &fkeys, write_ts);
        Ok(())
    }

    /// Looks up, as seen at `read_ts`, the native vertex ids indexed under `value` by
    /// `index`. `None` where a stored key's value length field points past its end.
    pub fn try_lookup_tag_index_native_mvcc(&self, space_id: u64, index: &Index, value: &[u8], read_ts: Timestamp) -> (r:
        Option<Vec<u64>>)
        ensures
            match (r, native_lookup_spec(self@, space_id, index@.name, value@, read_ts)) {
                (Some(v), Some(t)) => v@ == t,
                (None, None) => true,
                _ => false,
            },
    {
        let pre = IndexKeyCodec::build_vertex_index_prefix(space_id, index.name.as_str());
        let end = IndexKeyCodec::build_range_end(&pre);
        let p = pre.0.len();
        let entries = self.forward_index.range(pre.as_ref(), end.as_ref());
        let ghost es = list_view(entries@);
        let mut found: Vec<u64> = Vec::new();
        let mut i: usize = 0;
        assert(es.subrange(0, 0) =~= Seq::<(Seq<u8>, IndexEntry)>::empty());
        while i < entries.len()
            invariant
                i <= entries@.len(),
                es == list_view(entries@),
                es == range_of(self@.forward, pre@, end@),
                pre@ == index_prefix_spec(space_id, KEY_TYPE_VERTEX_FORWARD, encode_utf8(index@.name)),
                end@ == range_end_spec(pre@),
                p == pre@.len(),
                es.len() == entries@.len(),
                native_lookup_scan(es.subrange(0, i as int), p as int, value@, read_ts) == Some(found@),
            decreases entries@.len() - i,
        {
            let ghost sub = es.subrange(0, i as int + 1);
            assert(sub.drop_last() =~= es.subrange(0, i as int));
            assert(sub.last() == (entries@[i as int].0@, entries@[i as int].1));
            let key = entries[i].0.as_slice();
            if entries[i].1.is_visible_at(read_ts) {
                match Self::parse_native_vid(key) {
                    Some(vid) => {
                        if key.len() > p && key.len() - p > 4 && read_u32_le(key, p) as u64 == value.len() as u64 {
                            if value.len() > key.len() - p - 4 {
                                proof {
                                    lemma_native_scan_stops(es, i as int + 1, p as int, value@, read_ts);
                                }
                                return None;
                            }
                            let stored = vstd::slice::slice_subrange(key, p + 4, p + 4 + value.len());
                            if crate::compression::bytes_eq(stored, value) {
                                found.push(vid);
                            }
                        }
                    },
                    None => {},
                }
            }
            i = i + 1;
        }
        assert(es.subrange(0, i as int) =~= es);
        Some(found)
    }

    /// Looks up, as seen at `read_ts`, the native vertex ids indexed under `value` by
    /// `index`: in key order, those of the visible forward entries of the index that
    /// hold `value`.
    pub fn lookup_tag_index_native_mvcc(&self, space_id: u64, index: &Index, value: &[u8], read_ts: Timestamp) -> (r:
        Result<Vec<u64>, StorageError>)
        requires
            native_lookup_spec(self@, space_id, index@.name, value@, read_ts) is Some,
        ensures
            r matches Ok(v) && Some(v@) == native_lookup_spec(self@, space_id, index@.name, value@, read_ts),
    {
        match self.try_lookup_tag_index_native_mvcc(space_id, index, value, read_ts) {
            Some(v) => Ok(v),
            None => {
                proof {
                    assert(false);
                }
                Ok(Vec::new())
            },
        }
    }

    /// Looks up, at `MAX_TIMESTAMP`, the native vertex ids indexed under `value`.
    pub fn lookup_tag_index_native(&self, space_id: u64, index: &Index, value: &[u8]) -> (r: Result<
        Vec<u64>,
        StorageError,
    >)
        requires
            native_lookup_spec(self@, space_id, index@.name, value@, MAX_TIMESTAMP) is Some,
        ensures
            r matches Ok(v) && Some(v@) == native_lookup_spec(self@, space_id, index@.name, value@, MAX_TIMESTAMP),
    {
        self.lookup_tag_index_native_mvcc(space_id, index, value, MAX_TIMESTAMP)
    }

    /// Looks up, as seen at `read_ts`, the native vertex ids whose value under `index`
    /// lies in `[start_value, end_value)` of byte order. The scan covers the forward
    /// keys from that of (`start_value`, 0) up to that of (`end_value`, `u64::MAX`).
    pub fn lookup_tag_index_range_native_mvcc(
        &self,
        space_id: u64,
        index: &Index,
        start_value: &[u8],
        end_value: &[u8],
        read_ts: Timestamp,
    ) -> (r: Result<Vec<u64>, StorageError>)
        ensures
            ({
                let nb = encode_utf8(index@.name);
                let lo = vertex_index_key_native_spec(space_id, nb, start_value@, 0);
                let hi = vertex_index_key_native_spec(space_id, nb, end_value@, u64::MAX);
                let p = index_prefix_spec(space_id, KEY_TYPE_VERTEX_FORWARD, nb).len() as int;
                r matches Ok(v) && v@ == native_range_scan(range_of(self@.forward, lo, hi), p, start_value@, end_value@, read_ts)
            }),
    {
        let pre = IndexKeyCodec::build_vertex_index_prefix(space_id, index.name.as_str());
        let p = pre.0.len();
        let lo = KeyBuilder::build_vertex_index_key_native(space_id, index.name.as_str(), start_value, 0);
        let hi = KeyBuilder::build_vertex_index_key_native(space_id, index.name.as_str(), end_value, u64::MAX);
        let entries = self.forward_index.range(lo.as_ref(), hi.as_ref());
        let ghost es = list_view(entries@);
        let mut found: Vec<u64> = Vec::new();
        let mut i: usize = 0;
        assert(es.subrange(0, 0) =~= Seq::<(Seq<u8>, IndexEntry)>::empty());
        while i < entries.len()
            invariant
                i <= entries@.len(),
                es == list_view(entries@),
                es == range_of(self@.forward, lo@, hi@),
                es.len() == entries@.len(),
                found@ == native_range_scan(es.subrange(0, i as int), p as int, start_value@, end_value@, read_ts),
            decreases entries@.len() - i,
        {
            let ghost sub = es.subrange(0, i as int + 1);
            assert(sub.drop_last() =~= es.subrange(0, i as int));
            assert(sub.last() == (entries@[i as int].0@, entries@[i as int].1));
            let key = entries[i].0.as_slice();
            if entries[i].1.is_visible_at(read_ts) {
                match Self::parse_native_vid(key) {
                    Some(vid) => {
                        if key.len() > p && key.len() - p > 4 {
                            let plen = read_u32_le(key, p) as usize;
                            if plen <= key.len() - p - 4 {
                                let stored = vstd::slice::slice_subrange(key, p + 4, p + 4 + plen);
                                let below_start = crate::entry_map::byte_order(stored, start_value) == -1;
                                let below_end = crate::entry_map::byte_order(stored, end_value) == -1;
                                if !below_start && below_end {
                                    found.push(vid);
                                }
                            }
                        }
                    },
                    None => {},
                }
            }
            i = i + 1;
        }
        assert(es.subrange(0, i as int) =~= es);
        Ok(found)
    }

    /// Looks up, at `MAX_TIMESTAMP`, the native vertex ids whose value under `index`
    /// lies in `[start_value, end_value)`.
    pub fn lookup_tag_index_range_native(
        &self,
        space_id: u64,
        index: &Index,
        start_value: &[u8],
        end_value: &[u8],
    ) -> (r: Result<Vec<u64>, StorageError>)
        ensures
            ({
                let nb = encode_utf8(index@.name);
                let lo = vertex_index_key_native_spec(space_id, nb, start_value@, 0);
                let hi = vertex_index_key_native_spec(space_id, nb, end_value@, u64::MAX);
                let p = index_prefix_spec(space_id, KEY_TYPE_VERTEX_FORWARD, nb).len() as int;
                r matches Ok(v) && v@ == native_range_scan(range_of(self@.forward, lo, hi), p, start_value@, end_value@, MAX_TIMESTAMP)
            }),
    {
        self.lookup_tag_index_range_native_mvcc(space_id, index, start_value, end_value, MAX_TIMESTAMP)
    }
}

/// Reading the field values and vertex id of a composite forward key. A key of 9
/// to 12 bytes, too short for the name length that the layout reads, counts as
/// unreadable, as does one longer than a slice can be.
pub open spec fn composite_of(key: Seq<u8>) -> Result<(Seq<Seq<u8>>, Seq<u8>), ParseFailure> {
    if key.len() <= isize::MAX && !(9 <= key.len() < 13) {
        parse_composite_vertex_spec(key)
    } else {
        Err(ParseFailure::BadName)
    }
}

/// The vertex ids that a composite lookup finds among the forward entries `es`, at
/// `read_ts`: visible entries whose key reads as a composite key whose first
/// `fields.len()` field values are `fields`, and, when `whole`, no others.
pub open spec fn composite_scan(es: EntryList, fields: Seq<Seq<u8>>, whole: bool, read_ts: Timestamp) -> Seq<Seq<u8>>
    decreases es.len(),
{
    if es.len() == 0 {
        Seq::empty()
    } else {
        let found = composite_scan(es.drop_last(), fields, whole, read_ts);
        let (key, e) = es.last();
        if visible_at(e, read_ts) && (composite_of(key) matches Ok((sv, vid)) && (if whole {
            sv.len() == fields.len()
        } else {
            sv.len() >= fields.len()
        }) && sv.subrange(0, fields.len() as int) == fields) {
            found.push(composite_of(key)->Ok_0.1)
        } else {
            found
        }
    }
}

impl VertexIndexManager {
    fn parse_composite(key: &[u8]) -> (r: Option<(Vec<Vec<u8>>, Vec<u8>)>)
        ensures
            match composite_of(key@) {
                Ok((fs, v)) => r matches Some(x) && x.0@.map_values(|f: Vec<u8>| f@) == fs && x.1@ == v,
                Err(_) => r is None,
            },
    {
        if key.len() > isize::MAX as usize || (key.len() >= 9 && key.len() < 13) {
            return None;
        }
        match KeyParser::parse_composite_vertex_index_key(key) {
            Ok(x) => Some(x),
            Err(_) => None,
        }
    }

    /// Whether the first `n` fields of `stored` and `query` agree.
    fn fields_agree(stored: &Vec<Vec<u8>>, query: &[Vec<u8>], n: usize) -> (r: bool)
        requires
            n <= stored@.len(),
            n <= query@.len(),
        ensures
            r == (stored@.map_values(|f: Vec<u8>| f@).subrange(0, n as int) == query@.map_values(
                |f: Vec<u8>| f@,
            ).subrange(0, n as int)),
    {
        let ghost a = stored@.map_values(|f: Vec<u8>| f@);
        let ghost b = query@.map_values(|f: Vec<u8>| f@);
        let mut i: usize = 0;
        while i < n
            invariant
                i <= n,
                n <= stored@.len(),
                n <= query@.len(),
                a == stored@.map_values(|f: Vec<u8>| f@),
                b == query@.map_values(|f: Vec<u8>| f@),
                a.subrange(0, i as int) == b.subrange(0, i as int),
            decreases n - i,
        {
            if !crate::compression::bytes_eq(stored[i].as_slice(), query[i].as_slice()) {
                proof {
                    assert(a.subrange(0, n as int)[i as int] == a[i as int]);
                    assert(b.subrange(0, n as int)[i as int] == b[i as int]);
                }
                return false;
            }
            assert(a.subrange(0, i as int + 1) =~= a.subrange(0, i as int).push(a[i as int]));
            assert(b.subrange(0, i as int + 1) =~= b.subrange(0, i as int).push(b[i as int]));
            i = i + 1;
        }
        true
    }

    fn composite_in(&self, lo: &[u8], hi: &[u8], fields: &[Vec<u8>], whole: bool, read_ts: Timestamp) -> (r: Vec<
        Vec<u8>,
    >)
        ensures
            r@.map_values(|x: Vec<u8>| x@) == composite_scan(
                range_of(self@.forward, lo@, hi@),
                fields@.map_values(|f: Vec<u8>| f@),
                whole,
                read_ts,
            ),
    {
        let ghost fs = fields@.map_values(|f: Vec<u8>| f@);
        let entries = self.forward_index.range(lo, hi);
        let ghost es = list_view(entries@);
        let mut found: Vec<Vec<u8>> = Vec::new();
        let mut i: usize = 0;
        assert(es.subrange(0, 0) =~= Seq::<(Seq<u8>, IndexEntry)>::empty());
        assert(found@.map_values(|x: Vec<u8>| x@) =~= Seq::<Seq<u8>>::empty());
        while i < entries.len()
            invariant
                i <= entries@.len(),
                es == list_view(entries@),
                es == range_of(self@.forward, lo@, hi@),
                es.len() == entries@.len(),
                fs == fields@.map_values(|f: Vec<u8>| f@),
                found@.map_values(|x: Vec<u8>| x@) == composite_scan(es.subrange(0, i as int), fs, whole, read_ts),
            decreases entries@.len() - i,
        {
            let ghost sub = es.subrange(0, i as int + 1);
            assert(sub.drop_last() =~= es.subrange(0, i as int));
            assert(sub.last() == (entries@[i as int].0@, entries@[i as int].1));
            let ghost before = found@.map_values(|x: Vec<u8>| x@);
            if entries[i].1.is_visible_at(read_ts) {
                match Self::parse_composite(entries[i].0.as_slice()) {
                    Some((stored, vid)) => {
                        let sized = if whole {
                            stored.len() == fields.len()
                        } else {
                            stored.len() >= fields.len()
                        };
                        if sized {
                            proof {
                                assert(fields@.map_values(|f: Vec<u8>| f@).subrange(0, fields@.len() as int) =~= fs);
                            }
                            if Self::fields_agree(&stored, fields, fields.len()) {
                                let ghost vv = vid@;
                                found.push(vid);
                                assert(found@.map_values(|x: Vec<u8>| x@) =~= before.push(vv));
                            }
                        }
                    },
                    None => {},
                }
            }
            i = i + 1;
        }
        assert(es.subrange(0, i as int) =~= es);
        found
    }

    /// Writes, at `MAX_TIMESTAMP`, the entries of a vertex in a composite index.
    pub fn update_composite_vertex_indexes(
        &mut self,
        space_id: u64,
        vertex_id: &[u8],
        index_name: &str,
        field_values: &[Vec<u8>],
    ) -> (r: Result<(), StorageError>)
        ensures
            r is Ok,
            final(self)@.compressor == old(self)@.compressor,
            forall|k: Seq<u8>| #[trigger]
                find(final(self)@.forward, k) == if k == composite_vertex_index_key_spec(
                    space_id,
                    index_name.spec_bytes(),
                    field_values@.map_values(|f: Vec<u8>| f@),
                    vertex_id@,
                ) {
                    Some(fresh_entry(MAX_TIMESTAMP))
                } else {
                    find(old(self)@.forward, k)
                },
            forall|k: Seq<u8>| #[trigger]
                find(final(self)@.reverse, k) == if k == vertex_reverse_key_v2_spec(
                    space_id,
                    vertex_id@,
                    index_name.spec_bytes(),
                ) {
                    Some(fresh_entry(MAX_TIMESTAMP))
                } else {
                    find(old(self)@.reverse, k)
                },
    {
        self.update_composite_vertex_indexes_mvcc(space_id, vertex_id, index_name, field_values, MAX_TIMESTAMP)
    }

    /// Writes the entries of a vertex in a composite index: one forward entry under
    /// all its field values and a reverse entry for the vertex and index, both
    /// created at `write_ts` and stored uncompressed.
    pub fn update_composite_vertex_indexes_mvcc(
        &mut self,
        space_id: u64,
        vertex_id: &[u8],
        index_name: &str,
        field_values: &[Vec<u8>],
        write_ts: Timestamp,
    ) -> (r: Result<(), StorageError>)
        ensures
            r is Ok,
            final(self)@.compressor == old(self)@.compressor,
            forall|k: Seq<u8>| #[trigger]
                find(final(self)@.forward, k) == if k == composite_vertex_index_key_spec(
                    space_id,
                    index_name.spec_bytes(),
                    field_values@.map_values(|f: Vec<u8>| f@),
                    vertex_id@,
                ) {
                    Some(fresh_entry(write_ts))
                } else {
                    find(old(self)@.forward, k)
                },
            forall|k: Seq<u8>| #[trigger]
                find(final(self)@.reverse, k) == if k == vertex_reverse_key_v2_spec(
                    space_id,
                    vertex_id@,
                    index_name.spec_bytes(),
                ) {
                    Some(fresh_entry(write_ts))
                } else {
                    find(old(self)@.reverse, k)
                },
    {
        let fkey = KeyBuilder::build_composite_vertex_index_key(space_id, index_name, field_values, vertex_id);
        let rkey = KeyBuilder::build_vertex_reverse_key_v2(space_id, vertex_id, index_name);
        let entry = IndexEntry::new(write_ts);
        let _ = self.forward_index.insert(fkey.0, entry);
        let _ = self.reverse_index.insert(rkey.0, entry);
        Ok(())
    }

    /// Looks up, as seen at `read_ts`, the vertices whose entry in the composite index
    /// `index_name` holds exactly `field_values`, in key order.
    pub fn lookup_composite_tag_index_mvcc(
        &self,
        space_id: u64,
        index_name: &str,
        field_values: &[Vec<u8>],
        read_ts: Timestamp,
    ) -> (r: Result<Vec<Vec<u8>>, StorageError>)
        ensures
            ({
                let pre = index_prefix_spec(space_id, KEY_TYPE_VERTEX_FORWARD, index_name.spec_bytes());
                r matches Ok(v) && v@.map_values(|x: Vec<u8>| x@) == composite_scan(
                    range_of(self@.forward, pre, range_end_spec(pre)),
                    field_values@.map_values(|f: Vec<u8>| f@),
                    true,
                    read_ts,
                )
            }),
    {
        let pre = IndexKeyCodec::build_vertex_index_prefix(space_id, index_name);
        let end = IndexKeyCodec::build_range_end(&pre);
        Ok(self.composite_in(pre.as_ref(), end.as_ref(), field_values, true, read_ts))
    }

    /// Looks up, at `MAX_TIMESTAMP`, the vertices whose composite entry holds exactly
    /// `field_values`.
    pub fn lookup_composite_tag_index(&self, space_id: u64, index_name: &str, field_values: &[Vec<u8>]) -> (r: Result<
        Vec<Vec<u8>>,
        StorageError,
    >)
        ensures
            ({
                let pre = index_prefix_spec(space_id, KEY_TYPE_VERTEX_FORWARD, index_name.spec_bytes());
                r matches Ok(v) && v@.map_values(|x: Vec<u8>| x@) == composite_scan(
                    range_of(self@.forward, pre, range_end_spec(pre)),
                    field_values@.map_values(|f: Vec<u8>| f@),
                    true,
                    MAX_TIMESTAMP,
                )
            }),
    {
        self.lookup_composite_tag_index_mvcc(space_id, index_name, field_values, MAX_TIMESTAMP)
    }

    /// Looks up, as seen at `read_ts`, the vertices whose entry in the composite index
    /// `index_name` starts with the field values `prefix_values`, in key order.
    pub fn lookup_composite_tag_index_prefix(
        &self,
        space_id: u64,
        index_name: &str,
        prefix_values: &[Vec<u8>],
        read_ts: Timestamp,
    ) -> (r: Result<Vec<Vec<u8>>, StorageError>)
        ensures
            ({
                let pre = index_prefix_spec(space_id, KEY_TYPE_VERTEX_FORWARD, index_name.spec_bytes());
                r matches Ok(v) && v@.map_values(|x: Vec<u8>| x@) == composite_scan(
                    range_of(self@.forward, pre, range_end_spec(pre)),
                    prefix_values@.map_values(|f: Vec<u8>| f@),
                    false,
                    read_ts,
                )
            }),
    {
        let pre = IndexKeyCodec::build_vertex_index_prefix(space_id, index_name);
        let end = IndexKeyCodec::build_range_end(&pre);
        Ok(self.composite_in(pre.as_ref(), end.as_ref(), prefix_values, false, read_ts))
    }
}

} // verus!
