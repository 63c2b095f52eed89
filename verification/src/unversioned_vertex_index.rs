//! The vertex property index without versions: a forward map from (index, property
//! value, vertex) keys to the property's name, and a reverse map from (index, vertex)
//! keys to the property's name and value length, written as text `name:len`.
//! Property values and vertex ids arrive already serialized.
use vstd::prelude::*;
use vstd::string::StringSliceAdditionalSpecFns;
use vstd::utf8::*;
use crate::byte_map::{ByteMap, ByteList, byte_list_view};
use crate::bytes::{u32_at, read_u32_le, bytes_to_vec, framed};
use crate::edge_index::{EdgeIndexManager, append_decimal, value_len, value_len_of, reverse_value, written, removed_keys};
use crate::entry_map::{find, range_of};
use crate::error::StorageError;
use crate::key_codec::{
    IndexKeyCodec, vertex_index_key_spec, vertex_reverse_key_spec, index_prefix_spec, range_end_spec, key_head,
    KEY_TYPE_VERTEX_FORWARD, KEY_TYPE_VERTEX_REVERSE,
};
use crate::key_parser::{parse_vertex_id_spec, parse_vertex_reverse_spec, ParseFailure};
use crate::model::Index;

verus! {

/// What the index holds: its forward and reverse entries.
pub struct VertexNameIndexView {
    pub forward: ByteList,
    pub reverse: ByteList,
}

/// An index from vertex property values to vertices, without versions.
#[derive(Debug)]
pub struct VertexIndexManager {
    forward_index: ByteMap,
    reverse_index: ByteMap,
}

impl View for VertexIndexManager {
    type V = VertexNameIndexView;

    closed spec fn view(&self) -> VertexNameIndexView {
        VertexNameIndexView { forward: self.forward_index@, reverse: self.reverse_index@ }
    }
}

/// Reading the vertex id of a forward key; keys longer than a slice can be are not keys.
pub open spec fn plain_vid_of(key: Seq<u8>) -> Result<Seq<u8>, ParseFailure> {
    if key.len() <= isize::MAX {
        parse_vertex_id_spec(key)
    } else {
        Err(ParseFailure::BadName)
    }
}

/// Reading the index name and vertex id of a reverse key.
pub open spec fn plain_rev_of(key: Seq<u8>) -> Result<(Seq<char>, Seq<u8>), ParseFailure> {
    if key.len() <= isize::MAX {
        parse_vertex_reverse_spec(key)
    } else {
        Err(ParseFailure::BadName)
    }
}

/// The forward writes of `props` for a vertex: each value's key, with the property's name.
pub open spec fn vertex_forward_writes(space_id: u64, name: Seq<u8>, props: Seq<(String, Vec<u8>)>, vid: Seq<u8>) -> ByteList {
    props.map_values(|p: (String, Vec<u8>)| (vertex_index_key_spec(space_id, name, p.1@, vid), encode_utf8(p.0@)))
}

/// The reverse writes of `props` for a vertex: one key, written once per property with
/// its name and value length.
pub open spec fn vertex_reverse_writes(space_id: u64, name: Seq<u8>, props: Seq<(String, Vec<u8>)>, vid: Seq<u8>) -> ByteList {
    props.map_values(
        |p: (String, Vec<u8>)| (vertex_reverse_key_spec(space_id, name, vid), reverse_value(encode_utf8(p.0@), p.1@.len())),
    )
}

/// Whether a reverse entry belongs to the vertex `vid` in the space; its index name.
pub open spec fn reverse_of_vertex(k: Seq<u8>, space_id: u64, vid: Seq<u8>) -> bool {
    &&& k.len() >= 9
    &&& k.subrange(0, 9) == key_head(space_id, KEY_TYPE_VERTEX_REVERSE)
    &&& plain_rev_of(k) matches Ok((_, kv)) && kv == vid
}

/// Whether a forward key, in the range of an index with prefix length `p`, holds the
/// vertex `vid` at its end, after at least a value of length `plen`.
pub open spec fn vertex_key_matches(key: Seq<u8>, p: int, plen: int, vid: Seq<u8>) -> bool {
    &&& plain_vid_of(key) == Ok::<Seq<u8>, ParseFailure>(vid)
    &&& key.len() >= p + 4 + plen + 4
    &&& key.len() >= vid.len()
    &&& key.subrange(key.len() - vid.len(), key.len() as int) == vid
}

/// The keys of the forward entries `es` that match `vid` after a value of length `plen`.
pub open spec fn vertex_forward_matches(es: ByteList, p: int, plen: int, vid: Seq<u8>) -> Seq<Seq<u8>>
    decreases es.len(),
{
    if es.len() == 0 {
        Seq::empty()
    } else {
        let f = vertex_forward_matches(es.drop_last(), p, plen, vid);
        if vertex_key_matches(es.last().0, p, plen, vid) {
            f.push(es.last().0)
        } else {
            f
        }
    }
}

/// The reverse and forward keys that deleting the vertex `vid` removes, from the
/// reverse entries `es`: each reverse entry of the vertex and, when its value holds a
/// value length, the matching forward keys of the index it names.
pub open spec fn vertex_delete_plan(v: VertexNameIndexView, es: ByteList, space_id: u64, vid: Seq<u8>) -> (
    Seq<Seq<u8>>,
    Seq<Seq<u8>>,
)
    decreases es.len(),
{
    if es.len() == 0 {
        (Seq::empty(), Seq::empty())
    } else {
        let (rk, fk) = vertex_delete_plan(v, es.drop_last(), space_id, vid);
        let (k, val) = es.last();
        if reverse_of_vertex(k, space_id, vid) {
            let name = plain_rev_of(k)->Ok_0.0;
            match value_len_of(val) {
                Some(plen) => {
                    let pre = index_prefix_spec(space_id, KEY_TYPE_VERTEX_FORWARD, encode_utf8(name));
                    (
                        rk.push(k),
                        fk + vertex_forward_matches(range_of(v.forward, pre, range_end_spec(pre)), pre.len() as int, plen as int, vid),
                    )
                },
                None => (rk.push(k), fk),
            }
        } else {
            (rk, fk)
        }
    }
}

/// The reverse keys of the vertex `vid` whose index name starts with `tag`.
pub open spec fn vertex_tag_plan(es: ByteList, space_id: u64, vid: Seq<u8>, tag: Seq<u8>) -> Seq<Seq<u8>>
    decreases es.len(),
{
    if es.len() == 0 {
        Seq::empty()
    } else {
        let f = vertex_tag_plan(es.drop_last(), space_id, vid, tag);
        let k = es.last().0;
        if reverse_of_vertex(k, space_id, vid) && ({
            let nb = encode_utf8(plain_rev_of(k)->Ok_0.0);
            tag.len() <= nb.len() && nb.subrange(0, tag.len() as int) == tag
        }) {
            f.push(k)
        } else {
            f
        }
    }
}

/// The vertex ids that a lookup of `value` finds among the forward entries `es` (the
/// range of one index): keys holding a vertex id and, right after the index prefix of
/// length `p`, the value. `None` where the value's length field points past the end
/// of the key, so that the value cannot be read.
pub open spec fn plain_lookup_scan(es: ByteList, p: int, value: Seq<u8>) -> Option<Seq<Seq<u8>>>
    decreases es.len(),
{
    if es.len() == 0 {
        Some(Seq::empty())
    } else {
        match plain_lookup_scan(es.drop_last(), p, value) {
            None => None,
            Some(found) => {
                let key = es.last().0;
                match plain_vid_of(key) {
                    Err(_) => Some(found),
                    Ok(vid) => if key.len() > p + 4 && u32_at(key, p) == value.len() {
                        if p + 4 + value.len() > key.len() {
                            None
                        } else if key.subrange(p + 4, p + 4 + value.len()) == value {
                            Some(found.push(vid))
                        } else {
                            Some(found)
                        }
                    } else {
                        Some(found)
                    },
                }
            },
        }
    }
}

/// A lookup of `value` in the index named `name`.
pub open spec fn plain_lookup_spec(v: VertexNameIndexView, space_id: u64, name: Seq<char>, value: Seq<u8>) -> Option<
    Seq<Seq<u8>>,
> {
    let pre = index_prefix_spec(space_id, KEY_TYPE_VERTEX_FORWARD, encode_utf8(name));
    plain_lookup_scan(range_of(v.forward, pre, range_end_spec(pre)), pre.len() as int, value)
}

proof fn lemma_plain_scan_stops(es: ByteList, n: int, p: int, value: Seq<u8>)
    requires
        0 <= n <= es.len(),
        plain_lookup_scan(es.subrange(0, n), p, value) is None,
    ensures
        plain_lookup_scan(es, p, value) is None,
    decreases es.len() - n,
{
    if n < es.len() {
        let t = es.subrange(0, n + 1);
        assert(t.drop_last() =~= es.subrange(0, n));
        lemma_plain_scan_stops(es, n + 1, p, value);
    } else {
        assert(es.subrange(0, n) =~= es);
    }
}

impl VertexIndexManager {
    /// An empty index.
    pub fn new() -> (r: Self)
        ensures
            r@.forward.len() == 0,
            r@.reverse.len() == 0,
    {
        VertexIndexManager { forward_index: ByteMap::new(), reverse_index: ByteMap::new() }
    }

    /// The numbers of forward and reverse entries.
    pub fn entry_count(&self) -> (r: (usize, usize))
        ensures
            r.0 == self@.forward.len(),
            r.1 == self@.reverse.len(),
    {
        (self.forward_index.len(), self.reverse_index.len())
    }

    fn parse_vid(key: &[u8]) -> (r: Option<Vec<u8>>)
        ensures
            match plain_vid_of(key@) {
                Ok(v) => r matches Some(x) && x@ == v,
                Err(_) => r is None,
            },
    {
        if key.len() > isize::MAX as usize {
            return None;
        }
        match IndexKeyCodec::parse_vertex_id_from_key(key) {
            Ok(v) => Some(v),
            Err(_) => None,
        }
    }

    fn parse_rev(key: &[u8]) -> (r: Option<(String, Vec<u8>)>)
        ensures
            match plain_rev_of(key@) {
                Ok((n, v)) => r matches Some(x) && x.0@ == n && x.1@ == v,
                Err(_) => r is None,
            },
    {
        if key.len() > isize::MAX as usize {
            return None;
        }
        match IndexKeyCodec::parse_vertex_reverse_key(key) {
            Ok(x) => Some(x),
            Err(_) => None,
        }
    }

    /// Writes the entries of a vertex under `index_name`: for each property in order,
    /// the forward key of its value maps to the property's name, and the reverse key of
    /// the index and vertex maps to `name:len`, the value's length in decimal.
    pub fn update_vertex_indexes(
        &mut self,
        space_id: u64,
        vertex_id: &[u8],
        index_name: &str,
        props: &[(String, Vec<u8>)],
    ) -> (r: Result<(), StorageError>)
        ensures
            r is Ok,
            written(
                final(self)@.forward,
                old(self)@.forward,
                vertex_forward_writes(space_id, index_name.spec_bytes(), props@, vertex_id@),
            ),
            written(
                final(self)@.reverse,
                old(self)@.reverse,
                vertex_reverse_writes(space_id, index_name.spec_bytes(), props@, vertex_id@),
            ),
    {
        let ghost fw = vertex_forward_writes(space_id, index_name.spec_bytes(), props@, vertex_id@);
        let ghost rw = vertex_reverse_writes(space_id, index_name.spec_bytes(), props@, vertex_id@);
        let mut fws: Vec<(Vec<u8>, Vec<u8>)> = Vec::new();
        let mut rws: Vec<(Vec<u8>, Vec<u8>)> = Vec::new();
        let mut i: usize = 0;
        assert(byte_list_view(fws@) =~= fw.subrange(0, 0));
        assert(byte_list_view(rws@) =~= rw.subrange(0, 0));
        while i < props.len()
            invariant
                i <= props@.len(),
                fw == vertex_forward_writes(space_id, index_name.spec_bytes(), props@, vertex_id@),
                rw == vertex_reverse_writes(space_id, index_name.spec_bytes(), props@, vertex_id@),
                byte_list_view(fws@) == fw.subrange(0, i as int),
                byte_list_view(rws@) == rw.subrange(0, i as int),
            decreases props@.len() - i,
        {
            let name = &props[i].0;
            let value = &props[i].1;
            let fkey = IndexKeyCodec::build_vertex_index_key(space_id, index_name, value.as_slice(), vertex_id);
            let rkey = IndexKeyCodec::build_vertex_reverse_key(space_id, index_name, vertex_id);
            let nb = bytes_to_vec(name.as_str().as_bytes());
            let mut rv = bytes_to_vec(name.as_str().as_bytes());
            rv.push(58u8);
            append_decimal(&mut rv, value.len());
            let ghost fe = (fkey@, nb@);
            let ghost re = (rkey@, rv@);
            proof {
                assert(fe == fw[i as int]);
                assert(rv@ =~= reverse_value(encode_utf8(name@), value@.len()));
                assert(re == rw[i as int]);
            }
            let ghost fb = byte_list_view(fws@);
            let ghost rb = byte_list_view(rws@);
            fws.push((fkey.0, nb));
            rws.push((rkey.0, rv));
            assert(byte_list_view(fws@) =~= fb.push(fe));
            assert(byte_list_view(rws@) =~= rb.push(re));
            assert(fw.subrange(0, i as int + 1) =~= fw.subrange(0, i as int).push(fe));
            assert(rw.subrange(0, i as int + 1) =~= rw.subrange(0, i as int).push(re));
            i = i + 1;
        }
        assert(fw.subrange(0, i as int) =~= fw);
        assert(rw.subrange(0, i as int) =~= rw);
        EdgeIndexManager::write_all(&mut self.forward_index, &fws);
        EdgeIndexManager::write_all(&mut self.reverse_index, &rws);
        Ok(())
    }

    fn forward_matches_in(&self, lo: &[u8], hi: &[u8], plen: usize, vid: &[u8]) -> (r: Vec<Vec<u8>>)
        ensures
            r@.map_values(|x: Vec<u8>| x@) == vertex_forward_matches(
                range_of(self@.forward, lo@, hi@),
                lo@.len() as int,
                plen as int,
                vid@,
            ),
    {
        let entries = self.forward_index.range(lo, hi);
        let ghost es = byte_list_view(entries@);
        let mut out: Vec<Vec<u8>> = Vec::new();
        let mut i: usize = 0;
        assert(es.subrange(0, 0) =~= Seq::<(Seq<u8>, Seq<u8>)>::empty());
        assert(out@.map_values(|x: Vec<u8>| x@) =~= Seq::<Seq<u8>>::empty());
        while i < entries.len()
            invariant
                i <= entries@.len(),
                es == byte_list_view(entries@),
                es == range_of(self@.forward, lo@, hi@),
                es.len() == entries@.len(),
                out@.map_values(|x: Vec<u8>| x@) == vertex_forward_matches(
                    es.subrange(0, i as int),
                    lo@.len() as int,
                    plen as int,
                    vid@,
                ),
            decreases entries@.len() - i,
        {
            let ghost sub = es.subrange(0, i as int + 1);
            assert(sub.drop_last() =~= es.subrange(0, i as int));
            assert(sub.last() == (entries@[i as int].0@, entries@[i as int].1@));
            let ghost before = out@.map_values(|x: Vec<u8>| x@);
            let key = entries[i].0.as_slice();
            let hit = match Self::parse_vid(key) {
                Some(v) => {
                    let n = key.len();
                    crate::compression::bytes_eq(v.as_slice(), vid) && lo.len() <= n && plen <= n - lo.len() && n
                        - lo.len() - plen >= 8 && vid.len() <= n && crate::compression::bytes_eq(
                        vstd::slice::slice_subrange(key, n - vid.len(), n),
                        vid,
                    )
                },
                None => false,
            };
            if hit {
                out.push(bytes_to_vec(key));
                assert(out@.map_values(|x: Vec<u8>| x@) =~= before.push(entries@[i as int].0@));
            }
            i = i + 1;
        }
        assert(es.subrange(0, i as int) =~= es);
        out
    }

    /// Deletes the entries of a vertex: its reverse entries in the space and, for each
    /// whose value holds a value length, the forward entries of the index it names that
    /// end with the vertex id, after at least a value of that length.
    pub fn delete_vertex_indexes(&mut self, space_id: u64, vertex_id: &[u8]) -> (r: Result<(), StorageError>)
        ensures
            r is Ok,
            ({
                let (rk, fk) = vertex_delete_plan(old(self)@, old(self)@.reverse, space_id, vertex_id@);
                &&& removed_keys(final(self)@.reverse, old(self)@.reverse, rk)
                &&& removed_keys(final(self)@.forward, old(self)@.forward, fk)
            }),
    {
        let rpre = IndexKeyCodec::build_vertex_reverse_prefix(space_id);
        let entries = self.reverse_index.entries();
        let ghost es = byte_list_view(entries@);
        let ghost v = self@;
        let mut rkeys: Vec<Vec<u8>> = Vec::new();
        let mut fkeys: Vec<Vec<u8>> = Vec::new();
        let mut i: usize = 0;
        assert(es.subrange(0, 0) =~= Seq::<(Seq<u8>, Seq<u8>)>::empty());
        assert(rkeys@.map_values(|x: Vec<u8>| x@) =~= Seq::<Seq<u8>>::empty());
        assert(fkeys@.map_values(|x: Vec<u8>| x@) =~= Seq::<Seq<u8>>::empty());
        while i < entries.len()
            invariant
                i <= entries@.len(),
                es == byte_list_view(entries@),
                es == old(self)@.reverse,
                rpre@ == key_head(space_id, KEY_TYPE_VERTEX_REVERSE),
                es.len() == entries@.len(),
                v == self@,
                v == old(self)@,
                vertex_delete_plan(v, es.subrange(0, i as int), space_id, vertex_id@) == (
                    rkeys@.map_values(|x: Vec<u8>| x@),
                    fkeys@.map_values(|x: Vec<u8>| x@),
                ),
            decreases entries@.len() - i,
        {
            let ghost sub = es.subrange(0, i as int + 1);
            assert(sub.drop_last() =~= es.subrange(0, i as int));
            assert(sub.last() == (entries@[i as int].0@, entries@[i as int].1@));
            proof {
                vstd::bytes::lemma_auto_spec_u64_to_from_le_bytes();
                assert(key_head(space_id, KEY_TYPE_VERTEX_REVERSE).len() == 9);
            }
            let key = entries[i].0.as_slice();
            if crate::compression::starts_with(key, rpre.as_ref()) {
                match Self::parse_rev(key) {
                    Some((name, kv)) => {
                        if crate::compression::bytes_eq(kv.as_slice(), vertex_id) {
                            let ghost rbefore = rkeys@.map_values(|x: Vec<u8>| x@);
                            rkeys.push(bytes_to_vec(key));
                            assert(rkeys@.map_values(|x: Vec<u8>| x@) =~= rbefore.push(key@));
                            match value_len(entries[i].1.as_slice()) {
                                Some(plen) => {
                                    let pre = IndexKeyCodec::build_vertex_index_prefix(space_id, name.as_str());
                                    let end = IndexKeyCodec::build_range_end(&pre);
                                    let f = self.forward_matches_in(pre.as_ref(), end.as_ref(), plen, vertex_id);
                                    EdgeIndexManager::append_keys(&mut fkeys, f);
                                },
                                None => {},
                            }
                        }
                    },
                    None => {},
                }
            }
            i = i + 1;
        }
        assert(es.subrange(0, i as int) =~= es);
        EdgeIndexManager::remove_all(&mut self.reverse_index, &rkeys);
        EdgeIndexManager::remove_all(&mut self.forward_index, &fkeys);
        Ok(())
    }

    /// Removes the reverse entries of a vertex for the indexes whose names start with
    /// `tag_name`.
    pub fn delete_tag_indexes(&mut self, space_id: u64, vertex_id: &[u8], tag_name: &str) -> (r: Result<
        (),
        StorageError,
    >)
        ensures
            r is Ok,
            final(self)@.forward == old(self)@.forward,
            removed_keys(
                final(self)@.reverse,
                old(self)@.reverse,
                vertex_tag_plan(old(self)@.reverse, space_id, vertex_id@, tag_name.spec_bytes()),
            ),
    {
        let rpre = IndexKeyCodec::build_vertex_reverse_prefix(space_id);
        let entries = self.reverse_index.entries();
        let ghost es = byte_list_view(entries@);
        let ghost tag = tag_name.spec_bytes();
        let mut keys: Vec<Vec<u8>> = Vec::new();
        let mut i: usize = 0;
        assert(es.subrange(0, 0) =~= Seq::<(Seq<u8>, Seq<u8>)>::empty());
        assert(keys@.map_values(|x: Vec<u8>| x@) =~= Seq::<Seq<u8>>::empty());
        while i < entries.len()
            invariant
                i <= entries@.len(),
                es == byte_list_view(entries@),
                es == old(self)@.reverse,
                tag == tag_name.spec_bytes(),
                rpre@ == key_head(space_id, KEY_TYPE_VERTEX_REVERSE),
                es.len() == entries@.len(),
                vertex_tag_plan(es.subrange(0, i as int), space_id, vertex_id@, tag) == keys@.map_values(
                    |x: Vec<u8>| x@,
                ),
            decreases entries@.len() - i,
        {
            let ghost sub = es.subrange(0, i as int + 1);
            assert(sub.drop_last() =~= es.subrange(0, i as int));
            assert(sub.last() == (entries@[i as int].0@, entries@[i as int].1@));
            proof {
                vstd::bytes::lemma_auto_spec_u64_to_from_le_bytes();
                assert(key_head(space_id, KEY_TYPE_VERTEX_REVERSE).len() == 9);
            }
            let key = entries[i].0.as_slice();
            if crate::compression::starts_with(key, rpre.as_ref()) {
                match Self::parse_rev(key) {
                    Some((name, kv)) => {
                        if crate::compression::bytes_eq(kv.as_slice(), vertex_id) && crate::compression::starts_with(
                            name.as_str().as_bytes(),
                            tag_name.as_bytes(),
                        ) {
                            let ghost before = keys@.map_values(|x: Vec<u8>| x@);
                            keys.push(bytes_to_vec(key));
                            assert(keys@.map_values(|x: Vec<u8>| x@) =~= before.push(key@));
                        }
                    },
                    None => {},
                }
            }
            i = i + 1;
        }
        assert(es.subrange(0, i as int) =~= es);
        EdgeIndexManager::remove_all(&mut self.reverse_index, &keys);
        Ok(())
    }

    /// Removes every forward entry of the index `index_name`.
    pub fn clear_tag_index(&mut self, space_id: u64, index_name: &str) -> (r: Result<(), StorageError>)
        ensures
            r is Ok,
            final(self)@.reverse == old(self)@.reverse,
            ({
                let pre = index_prefix_spec(space_id, KEY_TYPE_VERTEX_FORWARD, index_name.spec_bytes());
                removed_keys(
                    final(self)@.forward,
                    old(self)@.forward,
                    range_of(old(self)@.forward, pre, range_end_spec(pre)).map_values(|e: (Seq<u8>, Seq<u8>)| e.0),
                )
            }),
    {
        let pre = IndexKeyCodec::build_vertex_index_prefix(space_id, index_name);
        let end = IndexKeyCodec::build_range_end(&pre);
        let entries = self.forward_index.range(pre.as_ref(), end.as_ref());
        let ghost es = byte_list_view(entries@);
        let mut keys: Vec<Vec<u8>> = Vec::new();
        let mut i: usize = 0;
        while i < entries.len()
            invariant
                i <= entries@.len(),
                es == byte_list_view(entries@),
                es.len() == entries@.len(),
                keys@.map_values(|x: Vec<u8>| x@) == es.subrange(0, i as int).map_values(|e: (Seq<u8>, Seq<u8>)| e.0),
            decreases entries@.len() - i,
        {
            let ghost before = keys@.map_values(|x: Vec<u8>| x@);
            keys.push(bytes_to_vec(entries[i].0.as_slice()));
            assert(keys@.map_values(|x: Vec<u8>| x@) =~= before.push(entries@[i as int].0@));
            assert(es.subrange(0, i as int + 1).map_values(|e: (Seq<u8>, Seq<u8>)| e.0) =~= es.subrange(
                0,
                i as int,
            ).map_values(|e: (Seq<u8>, Seq<u8>)| e.0).push(es[i as int].0));
            i = i + 1;
        }
        assert(es.subrange(0, i as int) =~= es);
        EdgeIndexManager::remove_all(&mut self.forward_index, &keys);
        Ok(())
    }

    /// Looks up the vertices indexed under `value` by `index`, in key order. `None`
    /// where a stored key's value length field points past its end.
    pub fn try_lookup_tag_index(&self, space_id: u64, index: &Index, value: &[u8]) -> (r: Option<Vec<Vec<u8>>>)
        ensures
            match (r, plain_lookup_spec(self@, space_id, index@.name, value@)) {
                (Some(v), Some(t)) => v@.map_values(|x: Vec<u8>| x@) == t,
                (None, None) => true,
                _ => false,
            },
    {
        let pre = IndexKeyCodec::build_vertex_index_prefix(space_id, index.name.as_str());
        let end = IndexKeyCodec::build_range_end(&pre);
        let p = pre.0.len();
        let entries = self.forward_index.range(pre.as_ref(), end.as_ref());
        let ghost es = byte_list_view(entries@);
        let mut found: Vec<Vec<u8>> = Vec::new();
        let mut i: usize = 0;
        assert(es.subrange(0, 0) =~= Seq::<(Seq<u8>, Seq<u8>)>::empty());
        assert(found@.map_values(|x: Vec<u8>| x@) =~= Seq::<Seq<u8>>::empty());
        while i < entries.len()
            invariant
                i <= entries@.len(),
                es == byte_list_view(entries@),
                es == range_of(self@.forward, pre@, end@),
                pre@ == index_prefix_spec(space_id, KEY_TYPE_VERTEX_FORWARD, encode_utf8(index@.name)),
                end@ == range_end_spec(pre@),
                p == pre@.len(),
                es.len() == entries@.len(),
                plain_lookup_scan(es.subrange(0, i as int), p as int, value@) == Some(found@.map_values(|x: Vec<u8>| x@)),
            decreases entries@.len() - i,
        {
            let ghost sub = es.subrange(0, i as int + 1);
            assert(sub.drop_last() =~= es.subrange(0, i as int));
            assert(sub.last() == (entries@[i as int].0@, entries@[i as int].1@));
            let ghost before = found@.map_values(|x: Vec<u8>| x@);
            let key = entries[i].0.as_slice();
            match Self::parse_vid(key) {
                Some(vid) => {
                    if key.len() > p && key.len() - p > 4 && read_u32_le(key, p) as u64 == value.len() as u64 {
                        if value.len() > key.len() - p - 4 {
                            proof {
                                lemma_plain_scan_stops(es, i as int + 1, p as int, value@);
                            }
                            return None;
                        }
                        if crate::compression::bytes_eq(vstd::slice::slice_subrange(key, p + 4, p + 4 + value.len()), value) {
                            let ghost vv = vid@;
                            found.push(vid);
                            assert(found@.map_values(|x: Vec<u8>| x@) =~= before.push(vv));
                        }
                    }
                },
                None => {},
            }
            i = i + 1;
        }
        assert(es.subrange(0, i as int) =~= es);
        Some(found)
    }

    /// Looks up the vertices indexed under `value` by `index`, in key order.
    pub fn lookup_tag_index(&self, space_id: u64, index: &Index, value: &[u8]) -> (r: Result<Vec<Vec<u8>>, StorageError>)
        requires
            plain_lookup_spec(self@, space_id, index@.name, value@) is Some,
        ensures
            r matches Ok(v) && Some(v@.map_values(|x: Vec<u8>| x@)) == plain_lookup_spec(self@, space_id, index@.name, value@),
    {
        match self.try_lookup_tag_index(space_id, index, value) {
            Some(v) => Ok(v),
            None => {
                proof {
                    assert(false);
                }
                Ok(Vec::new())
            },
        }
    }
}

impl Default for VertexIndexManager {
    fn default() -> (r: Self)
        ensures
            r@.forward.len() == 0,
            r@.reverse.len() == 0,
    {
        Self::new()
    }
}

proof fn lemma_vertex_forward_contains(es: ByteList, p: int, plen: int, vid: Seq<u8>, j: int)
    requires
        0 <= j < es.len(),
        vertex_key_matches(es[j].0, p, plen, vid),
    ensures
        vertex_forward_matches(es, p, plen, vid).contains(es[j].0),
    decreases es.len(),
{
    let f = vertex_forward_matches(es, p, plen, vid);
    if j < es.len() - 1 {
        lemma_vertex_forward_contains(es.drop_last(), p, plen, vid, j);
        let f0 = vertex_forward_matches(es.drop_last(), p, plen, vid);
        let k = choose|k: int| 0 <= k < f0.len() && f0[k] == es[j].0;
        assert(f[k] == es[j].0);
    } else {
        assert(f[f.len() - 1] == es[j].0);
    }
}

proof fn lemma_vertex_plan_contains(v: VertexNameIndexView, es: ByteList, space_id: u64, vid: Seq<u8>, j: int, plen: nat)
    requires
        0 <= j < es.len(),
        reverse_of_vertex(es[j].0, space_id, vid),
        value_len_of(es[j].1) == Some(plen),
    ensures
        ({
            let name = plain_rev_of(es[j].0)->Ok_0.0;
            let pre = index_prefix_spec(space_id, KEY_TYPE_VERTEX_FORWARD, encode_utf8(name));
            forall|x: Seq<u8>|
                vertex_forward_matches(range_of(v.forward, pre, range_end_spec(pre)), pre.len() as int, plen as int, vid).contains(x)
                    ==> #[trigger] vertex_delete_plan(v, es, space_id, vid).1.contains(x)
        }),
    decreases es.len(),
{
    let name = plain_rev_of(es[j].0)->Ok_0.0;
    let pre = index_prefix_spec(space_id, KEY_TYPE_VERTEX_FORWARD, encode_utf8(name));
    let f = vertex_forward_matches(range_of(v.forward, pre, range_end_spec(pre)), pre.len() as int, plen as int, vid);
    let (rk0, fk0) = vertex_delete_plan(v, es.drop_last(), space_id, vid);
    let fk = vertex_delete_plan(v, es, space_id, vid).1;
    if j < es.len() - 1 {
        lemma_vertex_plan_contains(v, es.drop_last(), space_id, vid, j, plen);
        assert forall|x: Seq<u8>| f.contains(x) implies #[trigger] fk.contains(x) by {
            assert(fk0.contains(x));
            let k = choose|k: int| 0 <= k < fk0.len() && fk0[k] == x;
            assert(fk[k] == x);
        }
    } else {
        assert forall|x: Seq<u8>| f.contains(x) implies #[trigger] fk.contains(x) by {
            let k = choose|k: int| 0 <= k < f.len() && f[k] == x;
            assert(fk == fk0 + f);
            assert(fk[fk0.len() + k] == x);
        }
    }
}

/// Deleting a vertex removes its entries: once the vertex `vid` has been deleted, its
/// forward entry under any value in index `name` is gone, when the reverse entry of
/// `name` and `vid` holds that value's length after a property name without `:`, as
/// the index writes it.
pub proof fn lemma_vertex_delete_removes(
    old: VertexNameIndexView,
    new: VertexNameIndexView,
    space_id: u64,
    name: Seq<char>,
    pname: Seq<u8>,
    value: Seq<u8>,
    vid: Seq<u8>,
)
    requires
        removed_keys(new.forward, old.forward, vertex_delete_plan(old, old.reverse, space_id, vid).1),
        find(old.reverse, vertex_reverse_key_spec(space_id, encode_utf8(name), vid)) == Some(
            reverse_value(pname, value.len()),
        ),
        forall|t: int| 0 <= t < pname.len() ==> pname[t] != 58,
        encode_utf8(name).len() <= u32::MAX,
        value.len() <= u32::MAX,
        vid.len() <= u32::MAX,
        vertex_reverse_key_spec(space_id, encode_utf8(name), vid).len() <= isize::MAX,
        vertex_index_key_spec(space_id, encode_utf8(name), value, vid).len() <= isize::MAX,
    ensures
        find(new.forward, vertex_index_key_spec(space_id, encode_utf8(name), value, vid)) is None,
{
    let nb = encode_utf8(name);
    vstd::bytes::lemma_auto_spec_u64_to_from_le_bytes();
    vstd::bytes::lemma_auto_spec_u32_to_from_le_bytes();
    let rk = vertex_reverse_key_spec(space_id, nb, vid);
    let rv = reverse_value(pname, value.len());
    crate::entry_map::lemma_find_some(old.reverse, rk);
    let j = choose|j: int| 0 <= j < old.reverse.len() && old.reverse[j] == (rk, rv);
    let hr = key_head(space_id, KEY_TYPE_VERTEX_REVERSE);
    assert(hr.len() == 9);
    assert(rk =~= hr + (framed(nb) + framed(vid)));
    assert(rk.subrange(0, 9) =~= hr);
    crate::key_codec::lemma_vertex_reverse_key_roundtrip(space_id, name, vid);
    assert(reverse_of_vertex(rk, space_id, vid));
    crate::edge_index::lemma_reverse_value_len(pname, value.len());
    lemma_vertex_plan_contains(old, old.reverse, space_id, vid, j, value.len());
    let key = vertex_index_key_spec(space_id, nb, value, vid);
    if find(old.forward, key) is Some {
        let e = find(old.forward, key)->Some_0;
        let pre = index_prefix_spec(space_id, KEY_TYPE_VERTEX_FORWARD, nb);
        let end = range_end_spec(pre);
        crate::entry_map::lemma_find_some(old.forward, key);
        let m = choose|m: int| 0 <= m < old.forward.len() && old.forward[m] == (key, e);
        assert(old.forward.contains(old.forward[m]));
        let h = key_head(space_id, KEY_TYPE_VERTEX_FORWARD);
        assert(h.len() == 9);
        assert(key =~= pre + (framed(value) + framed(vid)));
        assert(key.subrange(0, pre.len() as int) =~= pre);
        assert(pre[8] == KEY_TYPE_VERTEX_FORWARD);
        crate::key_codec::lemma_range_covers_prefix(pre, key);
        crate::entry_map::lemma_range_of_members(old.forward, pre, end);
        let es = range_of(old.forward, pre, end);
        assert(es.contains((key, e)));
        let q = choose|q: int| 0 <= q < es.len() && es[q] == (key, e);
        crate::key_codec::lemma_vertex_index_key_roundtrip(space_id, nb, value, vid);
        assert(key =~= (h + framed(nb) + framed(value) + vstd::bytes::spec_u32_to_le_bytes(vid.len() as u32)) + vid);
        assert(key.subrange(key.len() - vid.len(), key.len() as int) =~= vid);
        assert(framed(value).len() == 4 + value.len());
        assert(vertex_key_matches(key, pre.len() as int, value.len() as int, vid));
        lemma_vertex_forward_contains(es, pre.len() as int, value.len() as int, vid, q);
    }
}

} // verus!
