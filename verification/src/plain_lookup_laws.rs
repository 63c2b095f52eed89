//! Laws of the edge index and of the single-version vertex index: a lookup finds
//! only entries whose keys hold the looked-up value (and, after a write, the written
//! ones), and a deletion removes only entries of the deleted edge or vertex.
use vstd::prelude::*;
use vstd::utf8::*;
use crate::byte_map::ByteList;
use crate::bytes::{u32_at, framed};
use crate::edge_index::{
    EdgeIndexView, edge_lookup_scan, edge_lookup_spec, written, removed_keys, edge_delete_plan, edge_forward_matches,
    edge_key_matches, reverse_selected, edge_rev_of, value_len_of,
};
use crate::entry_map::{find, range_of, in_range};
use crate::key_codec::{
    index_prefix_spec, range_end_spec, key_head, vertex_index_key_spec, KEY_TYPE_EDGE_FORWARD, KEY_TYPE_VERTEX_FORWARD,
};
use crate::key_parser::ParseFailure;
use crate::unversioned_vertex_index::{
    VertexNameIndexView, plain_lookup_scan, plain_lookup_spec, plain_vid_of, vertex_forward_writes, vertex_delete_plan,
    vertex_forward_matches, reverse_of_vertex, plain_rev_of,
};

verus! {

/// The edge key `key` holds, right after its first `p` bytes, `value` (length
/// first) and then the source id `src` (length first).
pub open spec fn edge_holds(key: Seq<u8>, p: int, value: Seq<u8>, src: Seq<u8>) -> bool {
    let s = p + 4 + value.len();
    &&& s + 4 + src.len() <= key.len()
    &&& u32_at(key, p) == value.len()
    &&& key.subrange(p + 4, s) == value
    &&& u32_at(key, s) == src.len()
    &&& key.subrange(s + 4, s + 4 + src.len()) == src
}

/// Some entry of `es` holds `value` and the source id `src`.
pub open spec fn some_edge_entry(es: ByteList, p: int, value: Seq<u8>, src: Seq<u8>) -> bool {
    exists|i: int| 0 <= i < es.len() && #[trigger] edge_holds(es[i].0, p, value, src)
}

/// Some entry of `forward`, with a key in `[lo, hi)`, holds `value` and the source
/// id `src`.
pub open spec fn edge_indexed(forward: ByteList, lo: Seq<u8>, hi: Seq<u8>, p: int, value: Seq<u8>, src: Seq<u8>) -> bool {
    exists|x: (Seq<u8>, Seq<u8>)| #[trigger] forward.contains(x) && in_range(x.0, lo, hi) && edge_holds(x.0, p, value, src)
}

/// Every source id that an edge lookup scan of `es` gives, when it completes, comes
/// from an entry of `es` that holds the value.
pub proof fn lemma_edge_scan_sound(es: ByteList, p: int, value: Seq<u8>)
    requires
        0 <= p,
    ensures
        edge_lookup_scan(es, p, value) matches Some(found) ==> forall|j: int|
            0 <= j < found.len() ==> #[trigger] some_edge_entry(es, p, value, found[j]),
    decreases es.len(),
{
    if es.len() > 0 {
        let t = es.drop_last();
        lemma_edge_scan_sound(t, p, value);
        if let Some(found) = edge_lookup_scan(es, p, value) {
            let f0 = edge_lookup_scan(t, p, value)->Some_0;
            assert forall|j: int| 0 <= j < found.len() implies #[trigger] some_edge_entry(es, p, value, found[j]) by {
                if j < f0.len() {
                    assert(found[j] == f0[j]);
                    assert(some_edge_entry(t, p, value, f0[j]));
                    let i = choose|i: int| 0 <= i < t.len() && #[trigger] edge_holds(t[i].0, p, value, f0[j]);
                    assert(es[i] == t[i]);
                } else {
                    let key = es.last().0;
                    let sls = p + 4 + value.len();
                    if !(key.len() > p + 4 && u32_at(key, p) == value.len() && sls <= key.len() && key.subrange(p + 4, sls)
                        == value && key.len() >= sls + 4 && key.len() >= sls + 4 + u32_at(key, sls)) {
                        assert(found == f0);
                    }
                    assert(found == f0.push(key.subrange(sls + 4, sls + 4 + u32_at(key, sls))));
                    assert(found[j] == key.subrange(sls + 4, sls + 4 + u32_at(key, sls)));
                    assert(found[j].len() == u32_at(key, sls));
                    assert(edge_holds(es[es.len() - 1].0, p, value, found[j]));
                }
            }
        }
    }
}

/// Only matches are found, for edges: every source id in the result of an edge
/// lookup of `value` that completes comes from a forward entry of the index whose
/// key holds exactly `value` as its property bytes, followed by that source id.
pub proof fn lemma_edge_lookup_finds_only_matches(v: EdgeIndexView, space_id: u64, name: Seq<char>, value: Seq<u8>)
    ensures
        ({
            let pre = index_prefix_spec(space_id, KEY_TYPE_EDGE_FORWARD, encode_utf8(name));
            edge_lookup_spec(v, space_id, name, value) matches Some(found) ==> forall|j: int|
                0 <= j < found.len() ==> #[trigger] edge_indexed(
                    v.forward,
                    pre,
                    range_end_spec(pre),
                    pre.len() as int,
                    value,
                    found[j],
                )
        }),
{
    let pre = index_prefix_spec(space_id, KEY_TYPE_EDGE_FORWARD, encode_utf8(name));
    let end = range_end_spec(pre);
    let es = range_of(v.forward, pre, end);
    let p = pre.len() as int;
    lemma_edge_scan_sound(es, p, value);
    crate::entry_map::lemma_range_of_members(v.forward, pre, end);
    if let Some(found) = edge_lookup_spec(v, space_id, name, value) {
        assert forall|j: int| 0 <= j < found.len() implies #[trigger] edge_indexed(v.forward, pre, end, p, value, found[j]) by {
            assert(some_edge_entry(es, p, value, found[j]));
            let i = choose|i: int| 0 <= i < es.len() && #[trigger] edge_holds(es[i].0, p, value, found[j]);
            assert(es.contains(es[i]));
        }
    }
}

/// The key `key` holds the vertex id `vid` and, right after its first `p` bytes,
/// `value` (length first).
pub open spec fn plain_holds(key: Seq<u8>, p: int, value: Seq<u8>, vid: Seq<u8>) -> bool {
    &&& plain_vid_of(key) == Ok::<Seq<u8>, ParseFailure>(vid)
    &&& p + 4 + value.len() <= key.len()
    &&& u32_at(key, p) == value.len()
    &&& key.subrange(p + 4, p + 4 + value.len()) == value
}

/// Some entry of `es` holds `value` and the vertex id `vid`.
pub open spec fn some_plain_entry(es: ByteList, p: int, value: Seq<u8>, vid: Seq<u8>) -> bool {
    exists|i: int| 0 <= i < es.len() && #[trigger] plain_holds(es[i].0, p, value, vid)
}

/// Some entry of `forward`, with a key in `[lo, hi)`, holds `value` and the vertex
/// id `vid`.
pub open spec fn plain_indexed(forward: ByteList, lo: Seq<u8>, hi: Seq<u8>, p: int, value: Seq<u8>, vid: Seq<u8>) -> bool {
    exists|x: (Seq<u8>, Seq<u8>)| #[trigger] forward.contains(x) && in_range(x.0, lo, hi) && plain_holds(x.0, p, value, vid)
}

/// Every vertex id that a lookup scan of `es` gives, when it completes, comes from an
/// entry of `es` that holds the value.
pub proof fn lemma_plain_scan_sound(es: ByteList, p: int, value: Seq<u8>)
    ensures
        plain_lookup_scan(es, p, value) matches Some(found) ==> forall|j: int|
            0 <= j < found.len() ==> #[trigger] some_plain_entry(es, p, value, found[j]),
    decreases es.len(),
{
    if es.len() > 0 {
        let t = es.drop_last();
        lemma_plain_scan_sound(t, p, value);
        if let Some(found) = plain_lookup_scan(es, p, value) {
            let f0 = plain_lookup_scan(t, p, value)->Some_0;
            assert forall|j: int| 0 <= j < found.len() implies #[trigger] some_plain_entry(es, p, value, found[j]) by {
                if j < f0.len() {
                    assert(found[j] == f0[j]);
                    assert(some_plain_entry(t, p, value, f0[j]));
                    let i = choose|i: int| 0 <= i < t.len() && #[trigger] plain_holds(t[i].0, p, value, f0[j]);
                    assert(es[i] == t[i]);
                } else {
                    assert(plain_holds(es[es.len() - 1].0, p, value, found[j]));
                }
            }
        }
    }
}

/// Only matches are found, in the single-version vertex index: every vertex id in
/// the result of a lookup of `value` that completes comes from a forward entry of the
/// index whose key holds exactly `value` as its property bytes.
pub proof fn lemma_plain_lookup_finds_only_matches(v: VertexNameIndexView, space_id: u64, name: Seq<char>, value: Seq<u8>)
    ensures
        ({
            let pre = index_prefix_spec(space_id, KEY_TYPE_VERTEX_FORWARD, encode_utf8(name));
            plain_lookup_spec(v, space_id, name, value) matches Some(found) ==> forall|j: int|
                0 <= j < found.len() ==> #[trigger] plain_indexed(
                    v.forward,
                    pre,
                    range_end_spec(pre),
                    pre.len() as int,
                    value,
                    found[j],
                )
        }),
{
    let pre = index_prefix_spec(space_id, KEY_TYPE_VERTEX_FORWARD, encode_utf8(name));
    let end = range_end_spec(pre);
    let es = range_of(v.forward, pre, end);
    let p = pre.len() as int;
    lemma_plain_scan_sound(es, p, value);
    crate::entry_map::lemma_range_of_members(v.forward, pre, end);
    if let Some(found) = plain_lookup_spec(v, space_id, name, value) {
        assert forall|j: int| 0 <= j < found.len() implies #[trigger] plain_indexed(v.forward, pre, end, p, value, found[j]) by {
            assert(some_plain_entry(es, p, value, found[j]));
            let i = choose|i: int| 0 <= i < es.len() && #[trigger] plain_holds(es[i].0, p, value, found[j]);
            assert(es.contains(es[i]));
        }
    }
}

/// A lookup scan that completes finds the vertex id of every entry holding the value.
proof fn lemma_plain_scan_contains(es: ByteList, p: int, value: Seq<u8>, j: int, vid: Seq<u8>)
    requires
        0 <= j < es.len(),
        plain_holds(es[j].0, p, value, vid),
        es[j].0.len() > p + 4,
    ensures
        plain_lookup_scan(es, p, value) matches Some(found) ==> found.contains(vid),
    decreases es.len(),
{
    if j < es.len() - 1 {
        assert(es.drop_last()[j] == es[j]);
        lemma_plain_scan_contains(es.drop_last(), p, value, j, vid);
        if let Some(found) = plain_lookup_scan(es, p, value) {
            let f0 = plain_lookup_scan(es.drop_last(), p, value)->Some_0;
            let k = choose|k: int| 0 <= k < f0.len() && f0[k] == vid;
            if found != f0 {
                assert(found[k] == vid);
            }
        }
    } else {
        if let Some(found) = plain_lookup_scan(es, p, value) {
            assert(found[found.len() - 1] == vid);
        }
    }
}

/// Reading after writing, in the single-version vertex index: once the entries of a
/// vertex have been written under index `name`, a lookup of one of the written values
/// that completes finds the vertex.
pub proof fn lemma_plain_update_then_lookup(
    old: VertexNameIndexView,
    new: VertexNameIndexView,
    space_id: u64,
    name: Seq<char>,
    props: Seq<(String, Vec<u8>)>,
    vid: Seq<u8>,
    i: int,
)
    requires
        written(new.forward, old.forward, vertex_forward_writes(space_id, encode_utf8(name), props, vid)),
        0 <= i < props.len(),
        encode_utf8(name).len() <= u32::MAX,
        props[i].1@.len() <= u32::MAX,
        vid.len() <= u32::MAX,
        vertex_index_key_spec(space_id, encode_utf8(name), props[i].1@, vid).len() <= isize::MAX,
    ensures
        plain_lookup_spec(new, space_id, name, props[i].1@) matches Some(found) ==> found.contains(vid),
{
    let nb = encode_utf8(name);
    let value = props[i].1@;
    let key = vertex_index_key_spec(space_id, nb, value, vid);
    let ws = vertex_forward_writes(space_id, nb, props, vid);
    assert(ws[i].0 == key);
    crate::entry_map::lemma_find_some(ws, key);
    let e = find(new.forward, key)->Some_0;
    assert(find(new.forward, key) is Some);
    let pre = index_prefix_spec(space_id, KEY_TYPE_VERTEX_FORWARD, nb);
    let end = range_end_spec(pre);
    crate::entry_map::lemma_find_some(new.forward, key);
    let m = choose|m: int| 0 <= m < new.forward.len() && new.forward[m] == (key, e);
    assert(new.forward.contains(new.forward[m]));
    let h = key_head(space_id, KEY_TYPE_VERTEX_FORWARD);
    vstd::bytes::lemma_auto_spec_u64_to_from_le_bytes();
    assert(h.len() == 9);
    assert(key =~= pre + (framed(value) + framed(vid)));
    assert(key.subrange(0, pre.len() as int) =~= pre);
    assert(pre[8] == KEY_TYPE_VERTEX_FORWARD);
    crate::key_codec::lemma_range_covers_prefix(pre, key);
    crate::entry_map::lemma_range_of_members(new.forward, pre, end);
    let es = range_of(new.forward, pre, end);
    assert(es.contains((key, e)));
    let j = choose|j: int| 0 <= j < es.len() && es[j] == (key, e);
    crate::key_codec::lemma_vertex_index_key_roundtrip(space_id, nb, value, vid);
    crate::bytes::lemma_framed_parts(pre, value, framed(vid));
    assert(key =~= pre + framed(value) + framed(vid));
    assert(plain_holds(es[j].0, pre.len() as int, value, vid));
    lemma_plain_scan_contains(es, pre.len() as int, value, j, vid);
}

/// The forward key `k` holds the source `src` and the destination `dst` after the
/// prefix of one of the indexes `names` and a value of some length.
pub open spec fn edge_key_of(k: Seq<u8>, space_id: u64, src: Seq<u8>, dst: Seq<u8>, names: Seq<String>) -> bool {
    exists|j: int, plen: int|
        0 <= j < names.len() && #[trigger] edge_key_matches(
            k,
            index_prefix_spec(space_id, KEY_TYPE_EDGE_FORWARD, encode_utf8(names[j]@)).len() as int,
            plen,
            src,
            dst,
        )
}

proof fn lemma_edge_matches_own(es: ByteList, p: int, plen: int, src: Seq<u8>, dst: Seq<u8>)
    ensures
        forall|x: Seq<u8>| #[trigger] edge_forward_matches(es, p, plen, src, dst).contains(x) ==> edge_key_matches(x, p, plen, src, dst),
    decreases es.len(),
{
    if es.len() > 0 {
        lemma_edge_matches_own(es.drop_last(), p, plen, src, dst);
        let f = edge_forward_matches(es, p, plen, src, dst);
        let f0 = edge_forward_matches(es.drop_last(), p, plen, src, dst);
        assert forall|x: Seq<u8>| #[trigger] f.contains(x) implies edge_key_matches(x, p, plen, src, dst) by {
            let k = choose|k: int| 0 <= k < f.len() && f[k] == x;
            if k < f0.len() {
                assert(f0[k] == x);
                assert(f0.contains(x));
            }
        }
    }
}

proof fn lemma_edge_plan_own(v: EdgeIndexView, es: ByteList, space_id: u64, src: Seq<u8>, dst: Seq<u8>, names: Seq<String>)
    ensures
        forall|x: Seq<u8>|
            #[trigger] edge_delete_plan(v, es, space_id, src, dst, names).0.contains(x) ==> reverse_selected(x, space_id, src, names),
        forall|x: Seq<u8>|
            #[trigger] edge_delete_plan(v, es, space_id, src, dst, names).1.contains(x) ==> edge_key_of(x, space_id, src, dst, names),
    decreases es.len(),
{
    if es.len() > 0 {
        lemma_edge_plan_own(v, es.drop_last(), space_id, src, dst, names);
        let (rk, fk) = edge_delete_plan(v, es, space_id, src, dst, names);
        let (rk0, fk0) = edge_delete_plan(v, es.drop_last(), space_id, src, dst, names);
        let (k, val) = es.last();
        assert forall|x: Seq<u8>| #[trigger] rk.contains(x) implies reverse_selected(x, space_id, src, names) by {
            let m = choose|m: int| 0 <= m < rk.len() && rk[m] == x;
            if m < rk0.len() {
                assert(rk0[m] == x);
                assert(rk0.contains(x));
            }
        }
        assert forall|x: Seq<u8>| #[trigger] fk.contains(x) implies edge_key_of(x, space_id, src, dst, names) by {
            let m = choose|m: int| 0 <= m < fk.len() && fk[m] == x;
            if m < fk0.len() {
                assert(fk0[m] == x);
                assert(fk0.contains(x));
            } else {
                let name = edge_rev_of(k)->Ok_0.0;
                let plen = value_len_of(val)->Some_0;
                let pre = index_prefix_spec(space_id, KEY_TYPE_EDGE_FORWARD, encode_utf8(name));
                let f = edge_forward_matches(range_of(v.forward, pre, range_end_spec(pre)), pre.len() as int, plen as int, src, dst);
                assert(fk == fk0 + f);
                assert(f[m - fk0.len()] == x);
                assert(f.contains(x));
                lemma_edge_matches_own(range_of(v.forward, pre, range_end_spec(pre)), pre.len() as int, plen as int, src, dst);
                let j = choose|j: int| 0 <= j < names.len() && #[trigger] names[j]@ == name;
                assert(edge_key_matches(
                    x,
                    index_prefix_spec(space_id, KEY_TYPE_EDGE_FORWARD, encode_utf8(names[j]@)).len() as int,
                    plen as int,
                    src,
                    dst,
                ));
            }
        }
    }
}

/// Deleting an edge touches no other edge: every reverse entry that deleting the edge
/// `(src, dst)` from the indexes `names` removes is one of `src` for one of those
/// indexes, and every forward entry it removes holds `src` and `dst` after the
/// prefix of one of those indexes and a value.
pub proof fn lemma_edge_delete_touches_only_edge(
    old: EdgeIndexView,
    new: EdgeIndexView,
    space_id: u64,
    src: Seq<u8>,
    dst: Seq<u8>,
    names: Seq<String>,
)
    requires
        ({
            let (rk, fk) = edge_delete_plan(old, old.reverse, space_id, src, dst, names);
            removed_keys(new.reverse, old.reverse, rk) && removed_keys(new.forward, old.forward, fk)
        }),
    ensures
        forall|k: Seq<u8>| #[trigger] find(new.reverse, k) != find(old.reverse, k) ==> reverse_selected(k, space_id, src, names),
        forall|k: Seq<u8>| #[trigger] find(new.forward, k) != find(old.forward, k) ==> edge_key_of(k, space_id, src, dst, names),
{
    lemma_edge_plan_own(old, old.reverse, space_id, src, dst, names);
    let (rk, fk) = edge_delete_plan(old, old.reverse, space_id, src, dst, names);
    assert forall|k: Seq<u8>| #[trigger] find(new.reverse, k) != find(old.reverse, k) implies reverse_selected(k, space_id, src, names) by {
        assert(rk.contains(k));
    }
    assert forall|k: Seq<u8>| #[trigger] find(new.forward, k) != find(old.forward, k) implies edge_key_of(k, space_id, src, dst, names) by {
        assert(fk.contains(k));
    }
}

proof fn lemma_vertex_matches_own(es: ByteList, p: int, plen: int, vid: Seq<u8>)
    ensures
        forall|x: Seq<u8>| #[trigger] vertex_forward_matches(es, p, plen, vid).contains(x) ==> plain_vid_of(x) == Ok::<Seq<u8>, ParseFailure>(vid),
    decreases es.len(),
{
    if es.len() > 0 {
        lemma_vertex_matches_own(es.drop_last(), p, plen, vid);
        let f = vertex_forward_matches(es, p, plen, vid);
        let f0 = vertex_forward_matches(es.drop_last(), p, plen, vid);
        assert forall|x: Seq<u8>| #[trigger] f.contains(x) implies plain_vid_of(x) == Ok::<Seq<u8>, ParseFailure>(vid) by {
            let k = choose|k: int| 0 <= k < f.len() && f[k] == x;
            if k < f0.len() {
                assert(f0[k] == x);
                assert(f0.contains(x));
            }
        }
    }
}

proof fn lemma_vertex_plan_own(v: VertexNameIndexView, es: ByteList, space_id: u64, vid: Seq<u8>)
    ensures
        forall|x: Seq<u8>| #[trigger] vertex_delete_plan(v, es, space_id, vid).0.contains(x) ==> reverse_of_vertex(x, space_id, vid),
        forall|x: Seq<u8>|
            #[trigger] vertex_delete_plan(v, es, space_id, vid).1.contains(x) ==> plain_vid_of(x) == Ok::<Seq<u8>, ParseFailure>(vid),
    decreases es.len(),
{
    if es.len() > 0 {
        lemma_vertex_plan_own(v, es.drop_last(), space_id, vid);
        let (rk, fk) = vertex_delete_plan(v, es, space_id, vid);
        let (rk0, fk0) = vertex_delete_plan(v, es.drop_last(), space_id, vid);
        let (k, val) = es.last();
        assert forall|x: Seq<u8>| #[trigger] rk.contains(x) implies reverse_of_vertex(x, space_id, vid) by {
            let m = choose|m: int| 0 <= m < rk.len() && rk[m] == x;
            if m < rk0.len() {
                assert(rk0[m] == x);
                assert(rk0.contains(x));
            }
        }
        assert forall|x: Seq<u8>| #[trigger] fk.contains(x) implies plain_vid_of(x) == Ok::<Seq<u8>, ParseFailure>(vid) by {
            let m = choose|m: int| 0 <= m < fk.len() && fk[m] == x;
            if m < fk0.len() {
                assert(fk0[m] == x);
                assert(fk0.contains(x));
            } else {
                let name = plain_rev_of(k)->Ok_0.0;
                let plen = value_len_of(val)->Some_0;
                let pre = index_prefix_spec(space_id, KEY_TYPE_VERTEX_FORWARD, encode_utf8(name));
                let es2 = range_of(v.forward, pre, range_end_spec(pre));
                let f = vertex_forward_matches(es2, pre.len() as int, plen as int, vid);
                assert(fk == fk0 + f);
                assert(f[m - fk0.len()] == x);
                assert(f.contains(x));
                lemma_vertex_matches_own(es2, pre.len() as int, plen as int, vid);
            }
        }
    }
}

/// Deleting a vertex from the single-version index touches no other vertex: every
/// reverse entry it removes is one of the vertex's, and every forward entry it
/// removes holds the vertex's id.
pub proof fn lemma_plain_delete_touches_only_vertex(old: VertexNameIndexView, new: VertexNameIndexView, space_id: u64, vid: Seq<u8>)
    requires
        ({
            let (rk, fk) = vertex_delete_plan(old, old.reverse, space_id, vid);
            removed_keys(new.reverse, old.reverse, rk) && removed_keys(new.forward, old.forward, fk)
        }),
    ensures
        forall|k: Seq<u8>| #[trigger] find(new.reverse, k) != find(old.reverse, k) ==> reverse_of_vertex(k, space_id, vid),
        forall|k: Seq<u8>|
            #[trigger] find(new.forward, k) != find(old.forward, k) ==> plain_vid_of(k) == Ok::<Seq<u8>, ParseFailure>(vid),
{
    lemma_vertex_plan_own(old, old.reverse, space_id, vid);
    let (rk, fk) = vertex_delete_plan(old, old.reverse, space_id, vid);
    assert forall|k: Seq<u8>| #[trigger] find(new.reverse, k) != find(old.reverse, k) implies reverse_of_vertex(k, space_id, vid) by {
        assert(rk.contains(k));
    }
    assert forall|k: Seq<u8>| #[trigger] find(new.forward, k) != find(old.forward, k) implies plain_vid_of(k) == Ok::<
        Seq<u8>,
        ParseFailure,
    >(vid) by {
        assert(fk.contains(k));
    }
}

} // verus!
