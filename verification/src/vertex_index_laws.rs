//! Laws of the vertex index: what a lookup gives back of a write, what a deletion
//! hides, that collecting tombstones changes no lookup from the safe timestamp on,
//! and that persisted entries load back.
use vstd::prelude::*;
use vstd::utf8::*;
use crate::bytes::{u32_at, framed};
use crate::compression::IndexCompressorView;
use crate::entry_map::{EntryList, find, range_of, in_range, live_at, is_stale};
use crate::error::ErrorView;
use crate::index_file::{file_bytes, entries_from, keys_fit, decode_spec};
use crate::key_builder::{
    vertex_reverse_key_v2_spec, vertex_reverse_prefix_v2_spec, vertex_index_key_native_spec,
    composite_vertex_index_key_spec, fields_fit, vertex_reverse_key_native_spec, vertex_reverse_prefix_native_spec,
};
use crate::key_codec::{vertex_index_key_spec, index_prefix_spec, range_end_spec, KEY_TYPE_VERTEX_FORWARD};
use crate::key_parser::ParseFailure;
use crate::mvcc::{Timestamp, visible_at};
use crate::vertex_index::{
    VertexIndexView, lookup_scan, lookup_spec, read_key, vid_of, v2_of, written_forward_keys, fresh_entry,
    forward_matches, delete_plan, marked, native_forward_keys, native_lookup_scan, native_lookup_spec, native_vid_of,
    composite_of, composite_scan, tag_plan, removed, native_forward_matches, native_delete_plan, native_rev_of,
};

verus! {

/// A scan that finishes finds the vertex id of every visible entry whose key reads
/// back to one holding the value.
proof fn lemma_scan_contains(
    es: EntryList,
    c: Option<IndexCompressorView>,
    p: int,
    value: Seq<u8>,
    read_ts: Timestamp,
    j: int,
    key: Seq<u8>,
    vid: Seq<u8>,
)
    requires
        0 <= j < es.len(),
        visible_at(es[j].1, read_ts),
        read_key(c, es[j].0) == Ok::<Seq<u8>, ErrorView>(key),
        vid_of(key) == Ok::<Seq<u8>, ParseFailure>(vid),
        key.len() > p + 4,
        u32_at(key, p) == value.len(),
        p + 4 + value.len() <= key.len(),
        key.subrange(p + 4, p + 4 + value.len()) == value,
    ensures
        lookup_scan(es, c, p, value, read_ts) matches Some(Ok(found)) ==> found.contains(vid),
    decreases es.len(),
{
    if j < es.len() - 1 {
        lemma_scan_contains(es.drop_last(), c, p, value, read_ts, j, key, vid);
        if let Some(Ok(found)) = lookup_scan(es, c, p, value, read_ts) {
            if let Some(Ok(f0)) = lookup_scan(es.drop_last(), c, p, value, read_ts) {
                let k = choose|k: int| 0 <= k < f0.len() && f0[k] == vid;
                assert(found.subrange(0, f0.len() as int) == f0 || found == f0);
                if found != f0 {
                    assert(found[k] == vid);
                }
            }
        }
    } else {
        if let Some(Ok(found)) = lookup_scan(es, c, p, value, read_ts) {
            assert(found[found.len() - 1] == vid);
        }
    }
}

/// Reading after writing: a lookup of an uncompressed index that completes finds
/// every vertex whose entry under the looked-up value is visible at the read
/// timestamp.
pub proof fn lemma_lookup_sees_visible_entry(
    v: VertexIndexView,
    space_id: u64,
    name: Seq<char>,
    value: Seq<u8>,
    vid: Seq<u8>,
    read_ts: Timestamp,
)
    requires
        v.compressor is None,
        encode_utf8(name).len() <= u32::MAX,
        value.len() <= u32::MAX,
        vid.len() <= u32::MAX,
        vertex_index_key_spec(space_id, encode_utf8(name), value, vid).len() <= isize::MAX,
        find(v.forward, vertex_index_key_spec(space_id, encode_utf8(name), value, vid)) matches Some(e)
            && visible_at(e, read_ts),
    ensures
        lookup_spec(v, space_id, name, value, read_ts) matches Some(Ok(found)) ==> found.contains(vid),
{
    let nb = encode_utf8(name);
    let key = vertex_index_key_spec(space_id, nb, value, vid);
    let prefix = index_prefix_spec(space_id, KEY_TYPE_VERTEX_FORWARD, nb);
    let end = range_end_spec(prefix);
    let e = find(v.forward, key)->Some_0;
    crate::entry_map::lemma_find_some(v.forward, key);
    let i = choose|i: int| 0 <= i < v.forward.len() && v.forward[i] == (key, e);
    let h = crate::key_codec::key_head(space_id, KEY_TYPE_VERTEX_FORWARD);
    vstd::bytes::lemma_auto_spec_u64_to_from_le_bytes();
    assert(h.len() == 9);
    assert(key =~= prefix + (framed(value) + framed(vid)));
    assert(key.subrange(0, prefix.len() as int) =~= prefix);
    assert(prefix[8] == KEY_TYPE_VERTEX_FORWARD);
    crate::key_codec::lemma_range_covers_prefix(prefix, key);
    crate::entry_map::lemma_range_of_members(v.forward, prefix, end);
    assert(v.forward.contains(v.forward[i]));
    assert(range_of(v.forward, prefix, end).contains((key, e)));
    let es = range_of(v.forward, prefix, end);
    let j = choose|j: int| 0 <= j < es.len() && es[j] == (key, e);
    crate::key_codec::lemma_vertex_index_key_roundtrip(space_id, nb, value, vid);
    crate::bytes::lemma_framed_parts(prefix, value, framed(vid));
    assert(key =~= prefix + framed(value) + framed(vid));
    lemma_scan_contains(es, None, prefix.len() as int, value, read_ts, j, key, vid);
}

/// Reading after writing: once the entries of a vertex have been written into an
/// uncompressed index at `write_ts`, a lookup at any later `read_ts` of one of the
/// written values that completes finds the vertex.
pub proof fn lemma_update_then_lookup(
    old: VertexIndexView,
    new: VertexIndexView,
    space_id: u64,
    name: Seq<char>,
    props: Seq<Seq<u8>>,
    vid: Seq<u8>,
    write_ts: Timestamp,
    read_ts: Timestamp,
    i: int,
)
    requires
        old.compressor is None,
        new.compressor == old.compressor,
        forall|k: Seq<u8>| #[trigger]
            find(new.forward, k) == if written_forward_keys(old.compressor, space_id, encode_utf8(name), props, vid).contains(
                k,
            ) {
                Some(fresh_entry(write_ts))
            } else {
                find(old.forward, k)
            },
        0 <= i < props.len(),
        write_ts <= read_ts,
        encode_utf8(name).len() <= u32::MAX,
        props[i].len() <= u32::MAX,
        vid.len() <= u32::MAX,
        vertex_index_key_spec(space_id, encode_utf8(name), props[i], vid).len() <= isize::MAX,
    ensures
        lookup_spec(new, space_id, name, props[i], read_ts) matches Some(Ok(found)) ==> found.contains(vid),
{
    let key = vertex_index_key_spec(space_id, encode_utf8(name), props[i], vid);
    let ks = written_forward_keys(old.compressor, space_id, encode_utf8(name), props, vid);
    assert(ks[i] == key);
    assert(ks.contains(key));
    assert(find(new.forward, key) == Some(fresh_entry(write_ts)));
    lemma_lookup_sees_visible_entry(new, space_id, name, props[i], vid, read_ts);
}

proof fn lemma_forward_matches_ok(es: EntryList, vid: Seq<u8>, ts: Timestamp)
    ensures
        forward_matches(es, None, vid, ts) is Ok,
    decreases es.len(),
{
    if es.len() > 0 {
        lemma_forward_matches_ok(es.drop_last(), vid, ts);
    }
}

proof fn lemma_plan_ok(v: VertexIndexView, es: EntryList, space_id: u64, vid: Seq<u8>, ts: Timestamp)
    requires
        v.compressor is None,
    ensures
        delete_plan(v, es, space_id, vid, ts) is Ok,
    decreases es.len(),
{
    if es.len() > 0 {
        lemma_plan_ok(v, es.drop_last(), space_id, vid, ts);
        let (ck, e) = es.last();
        if let Ok(key) = read_key(v.compressor, ck) {
            if let Ok((_, name)) = v2_of(key) {
                let pre = index_prefix_spec(space_id, KEY_TYPE_VERTEX_FORWARD, encode_utf8(name));
                lemma_forward_matches_ok(range_of(v.forward, pre, range_end_spec(pre)), vid, ts);
            }
        }
    }
}

/// An uncompressed visible entry whose key holds `vid`, and ends with it, is matched.
proof fn lemma_forward_matches_contains(es: EntryList, vid: Seq<u8>, ts: Timestamp, j: int)
    requires
        0 <= j < es.len(),
        visible_at(es[j].1, ts),
        vid_of(es[j].0) == Ok::<Seq<u8>, ParseFailure>(vid),
        es[j].0.len() >= vid.len(),
        es[j].0.subrange(es[j].0.len() - vid.len(), es[j].0.len() as int) == vid,
    ensures
        forward_matches(es, None, vid, ts) matches Ok(f) && f.contains(es[j].0),
    decreases es.len(),
{
    lemma_forward_matches_ok(es.drop_last(), vid, ts);
    if j < es.len() - 1 {
        lemma_forward_matches_contains(es.drop_last(), vid, ts, j);
        let f0 = forward_matches(es.drop_last(), None, vid, ts)->Ok_0;
        let k = choose|k: int| 0 <= k < f0.len() && f0[k] == es[j].0;
        if let Ok(f) = forward_matches(es, None, vid, ts) {
            if f != f0 {
                assert(f[k] == es[j].0);
            }
        }
    } else {
        let f = forward_matches(es, None, vid, ts)->Ok_0;
        assert(f[f.len() - 1] == es[j].0);
    }
}

/// In an uncompressed index, the plan for deleting `vid` marks every forward key
/// that the visible reverse entry `es[j]`, naming index `name`, leads to.
proof fn lemma_plan_contains(
    v: VertexIndexView,
    es: EntryList,
    space_id: u64,
    vid: Seq<u8>,
    ts: Timestamp,
    j: int,
    name: Seq<char>,
    rv: Seq<u8>,
)
    requires
        v.compressor is None,
        0 <= j < es.len(),
        visible_at(es[j].1, ts),
        v2_of(es[j].0) == Ok::<(Seq<u8>, Seq<char>), ParseFailure>((rv, name)),
    ensures
        ({
            let pre = index_prefix_spec(space_id, KEY_TYPE_VERTEX_FORWARD, encode_utf8(name));
            delete_plan(v, es, space_id, vid, ts) matches Ok((rk, fk)) && (forward_matches(
                range_of(v.forward, pre, range_end_spec(pre)),
                None,
                vid,
                ts,
            ) matches Ok(f) && forall|x: Seq<u8>| f.contains(x) ==> fk.contains(x))
        }),
    decreases es.len(),
{
    let pre = index_prefix_spec(space_id, KEY_TYPE_VERTEX_FORWARD, encode_utf8(name));
    let fr = range_of(v.forward, pre, range_end_spec(pre));
    lemma_plan_ok(v, es, space_id, vid, ts);
    lemma_plan_ok(v, es.drop_last(), space_id, vid, ts);
    lemma_forward_matches_ok(fr, vid, ts);
    let f = forward_matches(fr, None, vid, ts)->Ok_0;
    let (rk0, fk0) = delete_plan(v, es.drop_last(), space_id, vid, ts)->Ok_0;
    let (rk, fk) = delete_plan(v, es, space_id, vid, ts)->Ok_0;
    if j < es.len() - 1 {
        lemma_plan_contains(v, es.drop_last(), space_id, vid, ts, j, name, rv);
        assert forall|x: Seq<u8>| f.contains(x) implies fk.contains(x) by {
            assert(fk0.contains(x));
            let k = choose|k: int| 0 <= k < fk0.len() && fk0[k] == x;
            let (ck, e) = es.last();
            if visible_at(e, ts) {
                if let Ok((_, n2)) = v2_of(ck) {
                    let p2 = index_prefix_spec(space_id, KEY_TYPE_VERTEX_FORWARD, encode_utf8(n2));
                    lemma_forward_matches_ok(range_of(v.forward, p2, range_end_spec(p2)), vid, ts);
                    assert(fk[k] == x);
                }
            }
        }
    } else {
        assert forall|x: Seq<u8>| f.contains(x) implies fk.contains(x) by {
            let k = choose|k: int| 0 <= k < f.len() && f[k] == x;
            assert(fk == fk0 + f);
            assert(fk[fk0.len() + k] == x);
        }
    }
}

/// Deleting a vertex hides its entries: once the entries of `vid` have been deleted
/// at `write_ts` from an uncompressed index in which the vertex's reverse entry
/// for index `name` is visible at `write_ts`, the forward entry of the vertex
/// under any value in that index, created no later than `write_ts`, is not visible
/// at `write_ts` or after.
pub proof fn lemma_delete_hides_entry(
    old: VertexIndexView,
    new: VertexIndexView,
    space_id: u64,
    name: Seq<char>,
    value: Seq<u8>,
    vid: Seq<u8>,
    write_ts: Timestamp,
    read_ts: Timestamp,
)
    requires
        old.compressor is None,
        ({
            let pre = vertex_reverse_prefix_v2_spec(space_id, vid);
            match delete_plan(old, range_of(old.reverse, pre, range_end_spec(pre)), space_id, vid, write_ts) {
                Err(_) => new.forward == old.forward,
                Ok((rk, fk)) => marked(new.forward, old.forward, fk, write_ts),
            }
        }),
        find(old.reverse, vertex_reverse_key_v2_spec(space_id, vid, encode_utf8(name))) matches Some(e)
            && visible_at(e, write_ts),
        find(old.forward, vertex_index_key_spec(space_id, encode_utf8(name), value, vid)) matches Some(f)
            && f.created_ts <= write_ts,
        write_ts <= read_ts,
        encode_utf8(name).len() <= u32::MAX,
        value.len() <= u32::MAX,
        vid.len() <= u32::MAX,
        vertex_index_key_spec(space_id, encode_utf8(name), value, vid).len() <= isize::MAX,
        vertex_reverse_key_v2_spec(space_id, vid, encode_utf8(name)).len() <= isize::MAX,
    ensures
        find(new.forward, vertex_index_key_spec(space_id, encode_utf8(name), value, vid)) matches Some(g)
            && !visible_at(g, read_ts),
{
    let nb = encode_utf8(name);
    vstd::bytes::lemma_auto_spec_u64_to_from_le_bytes();
    // the reverse entry lies in the range the deletion scans
    let rkey = vertex_reverse_key_v2_spec(space_id, vid, nb);
    let rpre = vertex_reverse_prefix_v2_spec(space_id, vid);
    let rend = range_end_spec(rpre);
    let re = find(old.reverse, rkey)->Some_0;
    crate::entry_map::lemma_find_some(old.reverse, rkey);
    let i = choose|i: int| 0 <= i < old.reverse.len() && old.reverse[i] == (rkey, re);
    assert(old.reverse.contains(old.reverse[i]));
    let hr = crate::key_codec::key_head(space_id, crate::key_codec::KEY_TYPE_VERTEX_REVERSE);
    assert(hr.len() == 9);
    assert(rkey =~= rpre + framed(nb));
    assert(rkey.subrange(0, rpre.len() as int) =~= rpre);
    assert(rpre[8] == crate::key_codec::KEY_TYPE_VERTEX_REVERSE);
    crate::key_codec::lemma_range_covers_prefix(rpre, rkey);
    crate::entry_map::lemma_range_of_members(old.reverse, rpre, rend);
    let res = range_of(old.reverse, rpre, rend);
    assert(res.contains((rkey, re)));
    let j = choose|j: int| 0 <= j < res.len() && res[j] == (rkey, re);
    crate::key_builder::lemma_vertex_reverse_key_v2_roundtrip(space_id, vid, name);
    lemma_plan_contains(old, res, space_id, vid, write_ts, j, name, vid);
    let (rk, fk) = delete_plan(old, res, space_id, vid, write_ts)->Ok_0;
    // the forward entry lies in the range of its index
    let key = vertex_index_key_spec(space_id, nb, value, vid);
    let fe = find(old.forward, key)->Some_0;
    if visible_at(fe, write_ts) {
        let pre = index_prefix_spec(space_id, KEY_TYPE_VERTEX_FORWARD, nb);
        let end = range_end_spec(pre);
        crate::entry_map::lemma_find_some(old.forward, key);
        let m = choose|m: int| 0 <= m < old.forward.len() && old.forward[m] == (key, fe);
        assert(old.forward.contains(old.forward[m]));
        let h = crate::key_codec::key_head(space_id, KEY_TYPE_VERTEX_FORWARD);
        assert(h.len() == 9);
        assert(key =~= pre + (framed(value) + framed(vid)));
        assert(key.subrange(0, pre.len() as int) =~= pre);
        assert(pre[8] == KEY_TYPE_VERTEX_FORWARD);
        crate::key_codec::lemma_range_covers_prefix(pre, key);
        crate::entry_map::lemma_range_of_members(old.forward, pre, end);
        let fes = range_of(old.forward, pre, end);
        assert(fes.contains((key, fe)));
        let q = choose|q: int| 0 <= q < fes.len() && fes[q] == (key, fe);
        crate::key_codec::lemma_vertex_index_key_roundtrip(space_id, nb, value, vid);
        assert(key =~= (h + framed(nb) + framed(value) + vstd::bytes::spec_u32_to_le_bytes(vid.len() as u32)) + vid);
        assert(key.subrange(key.len() - vid.len(), key.len() as int) =~= vid);
        lemma_forward_matches_contains(fes, vid, write_ts, q);
        assert(fk.contains(key));
    }
}

proof fn lemma_range_live_commute(s: EntryList, lo: Seq<u8>, hi: Seq<u8>, t: Timestamp)
    ensures
        range_of(live_at(s, t), lo, hi) == live_at(range_of(s, lo, hi), t),
    decreases s.len(),
{
    if s.len() > 0 {
        let d = s.drop_last();
        lemma_range_live_commute(d, lo, hi, t);
        let x = s.last();
        let l = live_at(s, t);
        let r = range_of(s, lo, hi);
        if is_stale(x.1, t) {
            assert(l =~= live_at(d, t));
            if in_range(x.0, lo, hi) {
                assert(r.drop_last() =~= range_of(d, lo, hi));
                assert(live_at(r, t) =~= live_at(range_of(d, lo, hi), t));
            } else {
                assert(r =~= range_of(d, lo, hi));
            }
        } else {
            assert(l.drop_last() =~= live_at(d, t));
            assert(l.last() == x);
            if in_range(x.0, lo, hi) {
                assert(r.drop_last() =~= range_of(d, lo, hi));
                assert(r.last() == x);
            } else {
                assert(r =~= range_of(d, lo, hi));
            }
        }
    }
}

/// A lookup at `read_ts` does not see entries deleted before `t <= read_ts`.
proof fn lemma_scan_skips_stale(
    es: EntryList,
    c: Option<IndexCompressorView>,
    p: int,
    value: Seq<u8>,
    read_ts: Timestamp,
    t: Timestamp,
)
    requires
        t <= read_ts,
    ensures
        lookup_scan(live_at(es, t), c, p, value, read_ts) == lookup_scan(es, c, p, value, read_ts),
    decreases es.len(),
{
    if es.len() > 0 {
        let d = es.drop_last();
        lemma_scan_skips_stale(d, c, p, value, read_ts, t);
        let l = live_at(es, t);
        if is_stale(es.last().1, t) {
            assert(l =~= live_at(d, t));
        } else {
            assert(l.drop_last() =~= live_at(d, t));
            assert(l.last() == es.last());
        }
    }
}

/// Collecting tombstones changes no lookup: once the entries deleted before
/// `safe_ts` have been removed, a lookup at any `read_ts` from `safe_ts` on gives
/// what it gave before.
pub proof fn lemma_gc_keeps_lookups(
    old: VertexIndexView,
    new: VertexIndexView,
    space_id: u64,
    name: Seq<char>,
    value: Seq<u8>,
    safe_ts: Timestamp,
    read_ts: Timestamp,
)
    requires
        new.forward == live_at(old.forward, safe_ts),
        new.compressor == old.compressor,
        safe_ts <= read_ts,
    ensures
        lookup_spec(new, space_id, name, value, read_ts) == lookup_spec(old, space_id, name, value, read_ts),
{
    let prefix = index_prefix_spec(space_id, KEY_TYPE_VERTEX_FORWARD, encode_utf8(name));
    let end = range_end_spec(prefix);
    lemma_range_live_commute(old.forward, prefix, end, safe_ts);
    lemma_scan_skips_stale(range_of(old.forward, prefix, end), old.compressor, prefix.len() as int, value, read_ts, safe_ts);
}

/// Persisting and loading back: the persisted form of a list of entries whose keys
/// fit their 32-bit length fields reads back completely, and a map loaded from it
/// holds, under every key, what the list held.
pub proof fn lemma_persist_then_load(saved: EntryList, loaded: EntryList)
    requires
        keys_fit(saved),
        saved.len() <= u64::MAX,
        ({
            let data = file_bytes(saved);
            data.len() >= 8 ==> {
                let (es, complete) = entries_from(data, 8, crate::bytes::u64_at(data, 0) as nat);
                forall|k: Seq<u8>| #[trigger] find(loaded, k) == find(es, k)
            }
        }),
    ensures
        file_bytes(saved).len() >= 8,
        entries_from(file_bytes(saved), 8, crate::bytes::u64_at(file_bytes(saved), 0) as nat).1,
        forall|k: Seq<u8>| #[trigger] find(loaded, k) == find(saved, k),
{
    vstd::bytes::lemma_auto_spec_u64_to_from_le_bytes();
    crate::index_file::lemma_file_roundtrip(saved);
    let data = file_bytes(saved);
    assert(data.len() >= 8);
    assert(decode_spec(data) == Ok::<EntryList, ErrorView>(saved));
}

/// A native lookup that finishes finds the id of every visible entry whose key holds
/// the value.
proof fn lemma_native_scan_contains(es: EntryList, p: int, value: Seq<u8>, read_ts: Timestamp, j: int, vid: u64)
    requires
        0 <= j < es.len(),
        visible_at(es[j].1, read_ts),
        native_vid_of(es[j].0) == Ok::<u64, ParseFailure>(vid),
        es[j].0.len() > p + 4,
        u32_at(es[j].0, p) == value.len(),
        p + 4 + value.len() <= es[j].0.len(),
        es[j].0.subrange(p + 4, p + 4 + value.len()) == value,
    ensures
        native_lookup_scan(es, p, value, read_ts) matches Some(found) ==> found.contains(vid),
    decreases es.len(),
{
    if j < es.len() - 1 {
        lemma_native_scan_contains(es.drop_last(), p, value, read_ts, j, vid);
        if let Some(found) = native_lookup_scan(es, p, value, read_ts) {
            if let Some(f0) = native_lookup_scan(es.drop_last(), p, value, read_ts) {
                let k = choose|k: int| 0 <= k < f0.len() && f0[k] == vid;
                if found != f0 {
                    assert(found[k] == vid);
                }
            }
        }
    } else {
        if let Some(found) = native_lookup_scan(es, p, value, read_ts) {
            assert(found[found.len() - 1] == vid);
        }
    }
}

/// Reading after writing, for native ids: once the entries of a vertex have been
/// written at `write_ts`, a lookup at any later `read_ts` of one of the written
/// values that completes finds the vertex.
pub proof fn lemma_native_update_then_lookup(
    old: VertexIndexView,
    new: VertexIndexView,
    space_id: u64,
    name: Seq<char>,
    props: Seq<Seq<u8>>,
    vid: u64,
    write_ts: Timestamp,
    read_ts: Timestamp,
    i: int,
)
    requires
        forall|k: Seq<u8>| #[trigger]
            find(new.forward, k) == if native_forward_keys(space_id, encode_utf8(name), props, vid).contains(k) {
                Some(fresh_entry(write_ts))
            } else {
                find(old.forward, k)
            },
        0 <= i < props.len(),
        write_ts <= read_ts,
        encode_utf8(name).len() <= u32::MAX,
        props[i].len() <= u32::MAX,
        vertex_index_key_native_spec(space_id, encode_utf8(name), props[i], vid).len() <= isize::MAX,
    ensures
        native_lookup_spec(new, space_id, name, props[i], read_ts) matches Some(found) ==> found.contains(vid),
{
    let nb = encode_utf8(name);
    let value = props[i];
    let key = vertex_index_key_native_spec(space_id, nb, value, vid);
    let ks = native_forward_keys(space_id, nb, props, vid);
    assert(ks[i] == key);
    assert(ks.contains(key));
    let e = fresh_entry(write_ts);
    assert(find(new.forward, key) == Some(e));
    let prefix = index_prefix_spec(space_id, KEY_TYPE_VERTEX_FORWARD, nb);
    let end = range_end_spec(prefix);
    crate::entry_map::lemma_find_some(new.forward, key);
    let m = choose|m: int| 0 <= m < new.forward.len() && new.forward[m] == (key, e);
    assert(new.forward.contains(new.forward[m]));
    let h = crate::key_codec::key_head(space_id, KEY_TYPE_VERTEX_FORWARD);
    vstd::bytes::lemma_auto_spec_u64_to_from_le_bytes();
    assert(h.len() == 9);
    let tail = vstd::bytes::spec_u64_to_le_bytes(vid);
    assert(key =~= prefix + (framed(value) + tail));
    assert(key.subrange(0, prefix.len() as int) =~= prefix);
    assert(prefix[8] == KEY_TYPE_VERTEX_FORWARD);
    crate::key_codec::lemma_range_covers_prefix(prefix, key);
    crate::entry_map::lemma_range_of_members(new.forward, prefix, end);
    let es = range_of(new.forward, prefix, end);
    assert(es.contains((key, e)));
    let j = choose|j: int| 0 <= j < es.len() && es[j] == (key, e);
    crate::key_builder::lemma_vertex_index_key_native_roundtrip(space_id, nb, value, vid);
    crate::bytes::lemma_framed_parts(prefix, value, tail);
    assert(key =~= prefix + framed(value) + tail);
    lemma_native_scan_contains(es, prefix.len() as int, value, read_ts, j, vid);
}

proof fn lemma_composite_scan_contains(
    es: EntryList,
    fields: Seq<Seq<u8>>,
    whole: bool,
    read_ts: Timestamp,
    j: int,
    vid: Seq<u8>,
)
    requires
        0 <= j < es.len(),
        visible_at(es[j].1, read_ts),
        composite_of(es[j].0) == Ok::<(Seq<Seq<u8>>, Seq<u8>), ParseFailure>((fields, vid)),
    ensures
        composite_scan(es, fields, whole, read_ts).contains(vid),
    decreases es.len(),
{
    let found = composite_scan(es, fields, whole, read_ts);
    if j < es.len() - 1 {
        lemma_composite_scan_contains(es.drop_last(), fields, whole, read_ts, j, vid);
        let f0 = composite_scan(es.drop_last(), fields, whole, read_ts);
        let k = choose|k: int| 0 <= k < f0.len() && f0[k] == vid;
        if found != f0 {
            assert(found[k] == vid);
        }
    } else {
        assert(fields.subrange(0, fields.len() as int) =~= fields);
        assert(found[found.len() - 1] == vid);
    }
}

/// Reading after writing, for composite indexes: once a vertex's entry under
/// `fields` has been written at `write_ts`, lookups at any later `read_ts`, of all
/// the fields or of a leading part of them, find the vertex.
pub proof fn lemma_composite_update_then_lookup(
    old: VertexIndexView,
    new: VertexIndexView,
    space_id: u64,
    name: Seq<u8>,
    fields: Seq<Seq<u8>>,
    vid: Seq<u8>,
    write_ts: Timestamp,
    read_ts: Timestamp,
    n: int,
)
    requires
        forall|k: Seq<u8>| #[trigger]
            find(new.forward, k) == if k == composite_vertex_index_key_spec(space_id, name, fields, vid) {
                Some(fresh_entry(write_ts))
            } else {
                find(old.forward, k)
            },
        write_ts <= read_ts,
        0 <= n <= fields.len(),
        name.len() <= u32::MAX,
        fields.len() <= u32::MAX,
        fields_fit(fields),
        vid.len() <= u32::MAX,
        composite_vertex_index_key_spec(space_id, name, fields, vid).len() <= isize::MAX,
    ensures
        ({
            let pre = index_prefix_spec(space_id, KEY_TYPE_VERTEX_FORWARD, name);
            let es = range_of(new.forward, pre, range_end_spec(pre));
            &&& composite_scan(es, fields, true, read_ts).contains(vid)
            &&& composite_scan(es, fields.subrange(0, n), false, read_ts).contains(vid)
        }),
{
    let key = composite_vertex_index_key_spec(space_id, name, fields, vid);
    let e = fresh_entry(write_ts);
    assert(find(new.forward, key) == Some(e));
    let pre = index_prefix_spec(space_id, KEY_TYPE_VERTEX_FORWARD, name);
    let end = range_end_spec(pre);
    crate::entry_map::lemma_find_some(new.forward, key);
    let m = choose|m: int| 0 <= m < new.forward.len() && new.forward[m] == (key, e);
    assert(new.forward.contains(new.forward[m]));
    let h = crate::key_codec::key_head(space_id, KEY_TYPE_VERTEX_FORWARD);
    vstd::bytes::lemma_auto_spec_u64_to_from_le_bytes();
    assert(h.len() == 9);
    let rest = vstd::bytes::spec_u32_to_le_bytes(fields.len() as u32) + crate::key_builder::framed_all(fields) + framed(vid);
    assert(key =~= pre + rest);
    assert(key.subrange(0, pre.len() as int) =~= pre);
    assert(pre[8] == KEY_TYPE_VERTEX_FORWARD);
    crate::key_codec::lemma_range_covers_prefix(pre, key);
    crate::entry_map::lemma_range_of_members(new.forward, pre, end);
    let es = range_of(new.forward, pre, end);
    assert(es.contains((key, e)));
    let j = choose|j: int| 0 <= j < es.len() && es[j] == (key, e);
    crate::key_builder::lemma_composite_vertex_key_roundtrip(space_id, name, fields, vid);
    lemma_composite_scan_contains(es, fields, true, read_ts, j, vid);
    lemma_composite_prefix_contains(es, fields, n, read_ts, j, vid);
}

proof fn lemma_composite_prefix_contains(es: EntryList, fields: Seq<Seq<u8>>, n: int, read_ts: Timestamp, j: int, vid: Seq<u8>)
    requires
        0 <= j < es.len(),
        0 <= n <= fields.len(),
        visible_at(es[j].1, read_ts),
        composite_of(es[j].0) == Ok::<(Seq<Seq<u8>>, Seq<u8>), ParseFailure>((fields, vid)),
    ensures
        composite_scan(es, fields.subrange(0, n), false, read_ts).contains(vid),
    decreases es.len(),
{
    let pv = fields.subrange(0, n);
    let found = composite_scan(es, pv, false, read_ts);
    if j < es.len() - 1 {
        lemma_composite_prefix_contains(es.drop_last(), fields, n, read_ts, j, vid);
        let f0 = composite_scan(es.drop_last(), pv, false, read_ts);
        let k = choose|k: int| 0 <= k < f0.len() && f0[k] == vid;
        if found != f0 {
            assert(found[k] == vid);
        }
    } else {
        assert(fields.subrange(0, pv.len() as int) =~= pv);
        assert(found[found.len() - 1] == vid);
    }
}

/// A visible entry whose key holds the native id `vid` is matched.
proof fn lemma_native_matches_contains(es: EntryList, vid: u64, ts: Timestamp, j: int)
    requires
        0 <= j < es.len(),
        visible_at(es[j].1, ts),
        native_vid_of(es[j].0) == Ok::<u64, ParseFailure>(vid),
    ensures
        native_forward_matches(es, vid, ts).contains(es[j].0),
    decreases es.len(),
{
    let f0 = native_forward_matches(es.drop_last(), vid, ts);
    let f = native_forward_matches(es, vid, ts);
    if j < es.len() - 1 {
        assert(es.drop_last()[j] == es[j]);
        lemma_native_matches_contains(es.drop_last(), vid, ts, j);
        let k = choose|k: int| 0 <= k < f0.len() && f0[k] == es[j].0;
        if f != f0 {
            assert(f[k] == es[j].0);
        }
    } else {
        assert(f[f.len() - 1] == es[j].0);
    }
}

/// The plan for deleting the native id `vid` marks every forward key that the
/// visible reverse entry `es[j]`, naming index `name`, leads to.
proof fn lemma_native_plan_contains(
    v: VertexIndexView,
    es: EntryList,
    space_id: u64,
    vid: u64,
    ts: Timestamp,
    j: int,
    name: Seq<char>,
    rv: u64,
)
    requires
        0 <= j < es.len(),
        visible_at(es[j].1, ts),
        native_rev_of(es[j].0) == Ok::<(u64, Seq<char>), ParseFailure>((rv, name)),
    ensures
        ({
            let pre = index_prefix_spec(space_id, KEY_TYPE_VERTEX_FORWARD, encode_utf8(name));
            let f = native_forward_matches(range_of(v.forward, pre, range_end_spec(pre)), vid, ts);
            forall|x: Seq<u8>| f.contains(x) ==> native_delete_plan(v, es, space_id, vid, ts).1.contains(x)
        }),
    decreases es.len(),
{
    let pre = index_prefix_spec(space_id, KEY_TYPE_VERTEX_FORWARD, encode_utf8(name));
    let f = native_forward_matches(range_of(v.forward, pre, range_end_spec(pre)), vid, ts);
    let fk0 = native_delete_plan(v, es.drop_last(), space_id, vid, ts).1;
    let fk = native_delete_plan(v, es, space_id, vid, ts).1;
    if j < es.len() - 1 {
        assert(es.drop_last()[j] == es[j]);
        lemma_native_plan_contains(v, es.drop_last(), space_id, vid, ts, j, name, rv);
        assert forall|x: Seq<u8>| f.contains(x) implies fk.contains(x) by {
            assert(fk0.contains(x));
            let k = choose|k: int| 0 <= k < fk0.len() && fk0[k] == x;
            assert(fk[k] == x);
        }
    } else {
        assert(fk == fk0 + f);
        assert forall|x: Seq<u8>| f.contains(x) implies fk.contains(x) by {
            let k = choose|k: int| 0 <= k < f.len() && f[k] == x;
            assert(fk[fk0.len() + k] == x);
        }
    }
}

/// Deleting a vertex with a native id hides its entries in every index it is in:
/// once the entries of `vid` have been deleted at `write_ts`, for each index `name`
/// for which the vertex has a native reverse entry visible at `write_ts`, the
/// forward entry of the vertex under any value in that index, created no later
/// than `write_ts`, is not visible at `write_ts` or after.
pub proof fn lemma_native_delete_hides_entry(
    old: VertexIndexView,
    new: VertexIndexView,
    space_id: u64,
    name: Seq<char>,
    value: Seq<u8>,
    vid: u64,
    write_ts: Timestamp,
    read_ts: Timestamp,
)
    requires
        ({
            let pre = vertex_reverse_prefix_native_spec(space_id, vid);
            marked(
                new.forward,
                old.forward,
                native_delete_plan(old, range_of(old.reverse, pre, range_end_spec(pre)), space_id, vid, write_ts).1,
                write_ts,
            )
        }),
        find(old.reverse, vertex_reverse_key_native_spec(space_id, vid, encode_utf8(name))) matches Some(e)
            && visible_at(e, write_ts),
        find(old.forward, vertex_index_key_native_spec(space_id, encode_utf8(name), value, vid)) matches Some(f)
            && f.created_ts <= write_ts,
        write_ts <= read_ts,
        encode_utf8(name).len() <= u32::MAX,
        value.len() <= u32::MAX,
        vertex_index_key_native_spec(space_id, encode_utf8(name), value, vid).len() <= isize::MAX,
        vertex_reverse_key_native_spec(space_id, vid, encode_utf8(name)).len() <= isize::MAX,
    ensures
        find(new.forward, vertex_index_key_native_spec(space_id, encode_utf8(name), value, vid)) matches Some(g)
            && !visible_at(g, read_ts),
{
    let nb = encode_utf8(name);
    vstd::bytes::lemma_auto_spec_u64_to_from_le_bytes();
    // the reverse entry lies in the range the deletion scans
    let rkey = vertex_reverse_key_native_spec(space_id, vid, nb);
    let rpre = vertex_reverse_prefix_native_spec(space_id, vid);
    let rend = range_end_spec(rpre);
    let re = find(old.reverse, rkey)->Some_0;
    crate::entry_map::lemma_find_some(old.reverse, rkey);
    let i = choose|i: int| 0 <= i < old.reverse.len() && old.reverse[i] == (rkey, re);
    assert(old.reverse.contains(old.reverse[i]));
    let hr = crate::key_codec::key_head(space_id, crate::key_codec::KEY_TYPE_VERTEX_REVERSE);
    assert(hr.len() == 9);
    assert(rkey =~= rpre + framed(nb));
    assert(rkey.subrange(0, rpre.len() as int) =~= rpre);
    assert(rpre[8] == crate::key_codec::KEY_TYPE_VERTEX_REVERSE);
    crate::key_codec::lemma_range_covers_prefix(rpre, rkey);
    crate::entry_map::lemma_range_of_members(old.reverse, rpre, rend);
    let res = range_of(old.reverse, rpre, rend);
    assert(res.contains((rkey, re)));
    let j = choose|j: int| 0 <= j < res.len() && res[j] == (rkey, re);
    crate::key_builder::lemma_vertex_reverse_key_native_roundtrip(space_id, vid, name);
    lemma_native_plan_contains(old, res, space_id, vid, write_ts, j, name, vid);
    let fk = native_delete_plan(old, res, space_id, vid, write_ts).1;
    // the forward entry lies in the range of its index
    let key = vertex_index_key_native_spec(space_id, nb, value, vid);
    let fe = find(old.forward, key)->Some_0;
    if visible_at(fe, write_ts) {
        let pre = index_prefix_spec(space_id, KEY_TYPE_VERTEX_FORWARD, nb);
        let end = range_end_spec(pre);
        crate::entry_map::lemma_find_some(old.forward, key);
        let m = choose|m: int| 0 <= m < old.forward.len() && old.forward[m] == (key, fe);
        assert(old.forward.contains(old.forward[m]));
        let h = crate::key_codec::key_head(space_id, KEY_TYPE_VERTEX_FORWARD);
        assert(h.len() == 9);
        let tail = vstd::bytes::spec_u64_to_le_bytes(vid);
        assert(key =~= pre + (framed(value) + tail));
        assert(key.subrange(0, pre.len() as int) =~= pre);
        assert(pre[8] == KEY_TYPE_VERTEX_FORWARD);
        crate::key_codec::lemma_range_covers_prefix(pre, key);
        crate::entry_map::lemma_range_of_members(old.forward, pre, end);
        let fes = range_of(old.forward, pre, end);
        assert(fes.contains((key, fe)));
        let q = choose|q: int| 0 <= q < fes.len() && fes[q] == (key, fe);
        crate::key_builder::lemma_vertex_index_key_native_roundtrip(space_id, nb, value, vid);
        lemma_native_matches_contains(fes, vid, write_ts, q);
        assert(fk.contains(key));
    }
}

/// Every key that deleting `vid` matches among forward entries reads back to a key
/// that holds `vid`.
proof fn lemma_forward_matches_own(es: EntryList, c: Option<IndexCompressorView>, vid: Seq<u8>, ts: Timestamp)
    ensures
        forward_matches(es, c, vid, ts) matches Ok(f) ==> forall|x: Seq<u8>|
            #[trigger] f.contains(x) ==> (read_key(c, x) matches Ok(key) && vid_of(key) == Ok::<Seq<u8>, ParseFailure>(vid)),
    decreases es.len(),
{
    if es.len() > 0 {
        lemma_forward_matches_own(es.drop_last(), c, vid, ts);
        if let Ok(f) = forward_matches(es, c, vid, ts) {
            let f0 = forward_matches(es.drop_last(), c, vid, ts)->Ok_0;
            assert forall|x: Seq<u8>| #[trigger] f.contains(x) implies (read_key(c, x) matches Ok(key) && vid_of(key)
                == Ok::<Seq<u8>, ParseFailure>(vid)) by {
                let k = choose|k: int| 0 <= k < f.len() && f[k] == x;
                if k < f0.len() {
                    assert(f0[k] == x);
                    assert(f0.contains(x));
                }
            }
        }
    }
}

/// Every key in the plan for deleting `vid` is a reverse key among `es`, or a forward
/// key that reads back to one holding `vid`.
proof fn lemma_plan_own(v: VertexIndexView, es: EntryList, space_id: u64, vid: Seq<u8>, ts: Timestamp)
    ensures
        delete_plan(v, es, space_id, vid, ts) matches Ok((rk, fk)) ==> {
            &&& forall|x: Seq<u8>| #[trigger] rk.contains(x) ==> exists|i: int| 0 <= i < es.len() && #[trigger] es[i].0 == x
            &&& forall|x: Seq<u8>|
                #[trigger] fk.contains(x) ==> (read_key(v.compressor, x) matches Ok(key) && vid_of(key) == Ok::<
                    Seq<u8>,
                    ParseFailure,
                >(vid))
        },
    decreases es.len(),
{
    if es.len() > 0 {
        let t = es.drop_last();
        lemma_plan_own(v, t, space_id, vid, ts);
        if let Ok((rk, fk)) = delete_plan(v, es, space_id, vid, ts) {
            let (rk0, fk0) = delete_plan(v, t, space_id, vid, ts)->Ok_0;
            let (ck, e) = es.last();
            assert forall|x: Seq<u8>| #[trigger] rk.contains(x) implies exists|i: int| 0 <= i < es.len() && #[trigger] es[i].0 == x by {
                let k = choose|k: int| 0 <= k < rk.len() && rk[k] == x;
                if k < rk0.len() {
                    assert(rk0[k] == x);
                    assert(rk0.contains(x));
                    let i = choose|i: int| 0 <= i < t.len() && #[trigger] t[i].0 == x;
                    assert(es[i] == t[i]);
                } else {
                    assert(es[es.len() - 1].0 == x);
                }
            }
            assert forall|x: Seq<u8>| #[trigger] fk.contains(x) implies (read_key(v.compressor, x) matches Ok(key)
                && vid_of(key) == Ok::<Seq<u8>, ParseFailure>(vid)) by {
                let k = choose|k: int| 0 <= k < fk.len() && fk[k] == x;
                if k < fk0.len() {
                    assert(fk0[k] == x);
                    assert(fk0.contains(x));
                } else {
                    let key = read_key(v.compressor, ck)->Ok_0;
                    let name = v2_of(key)->Ok_0.1;
                    let pre = index_prefix_spec(space_id, KEY_TYPE_VERTEX_FORWARD, encode_utf8(name));
                    let fr = range_of(v.forward, pre, range_end_spec(pre));
                    lemma_forward_matches_own(fr, v.compressor, vid, ts);
                    let f = forward_matches(fr, v.compressor, vid, ts)->Ok_0;
                    assert(fk == fk0 + f);
                    assert(f[k - fk0.len()] == x);
                    assert(f.contains(x));
                }
            }
        }
    }
}

/// Deleting a vertex touches no other vertex: every forward entry that deleting
/// `vid` changes is stored under a key that reads back to one holding `vid`, and
/// every reverse entry it changes lies under the vertex's reverse prefix.
pub proof fn lemma_delete_touches_only_vertex(
    old: VertexIndexView,
    new: VertexIndexView,
    space_id: u64,
    vid: Seq<u8>,
    write_ts: Timestamp,
)
    requires
        ({
            let pre = vertex_reverse_prefix_v2_spec(space_id, vid);
            match delete_plan(old, range_of(old.reverse, pre, range_end_spec(pre)), space_id, vid, write_ts) {
                Err(_) => new.forward == old.forward && new.reverse == old.reverse,
                Ok((rk, fk)) => marked(new.forward, old.forward, fk, write_ts) && marked(
                    new.reverse,
                    old.reverse,
                    rk,
                    write_ts,
                ),
            }
        }),
    ensures
        forall|k: Seq<u8>|
            #[trigger] find(new.forward, k) != find(old.forward, k) ==> (read_key(old.compressor, k) matches Ok(key)
                && vid_of(key) == Ok::<Seq<u8>, ParseFailure>(vid)),
        forall|k: Seq<u8>|
            #[trigger] find(new.reverse, k) != find(old.reverse, k) ==> in_range(
                k,
                vertex_reverse_prefix_v2_spec(space_id, vid),
                range_end_spec(vertex_reverse_prefix_v2_spec(space_id, vid)),
            ),
{
    let pre = vertex_reverse_prefix_v2_spec(space_id, vid);
    let end = range_end_spec(pre);
    let es = range_of(old.reverse, pre, end);
    lemma_plan_own(old, es, space_id, vid, write_ts);
    crate::entry_map::lemma_range_of_members(old.reverse, pre, end);
    if let Ok((rk, fk)) = delete_plan(old, es, space_id, vid, write_ts) {
        assert forall|k: Seq<u8>| #[trigger] find(new.reverse, k) != find(old.reverse, k) implies in_range(k, pre, end) by {
            assert(rk.contains(k));
            let i = choose|i: int| 0 <= i < es.len() && #[trigger] es[i].0 == k;
            assert(es.contains(es[i]));
        }
        assert forall|k: Seq<u8>| #[trigger] find(new.forward, k) != find(old.forward, k) implies (read_key(
            old.compressor,
            k,
        ) matches Ok(key) && vid_of(key) == Ok::<Seq<u8>, ParseFailure>(vid)) by {
            assert(fk.contains(k));
        }
    }
}

/// Every key that deleting the native id `vid` matches holds `vid`.
proof fn lemma_native_matches_own(es: EntryList, vid: u64, ts: Timestamp)
    ensures
        forall|x: Seq<u8>|
            #[trigger] native_forward_matches(es, vid, ts).contains(x) ==> native_vid_of(x) == Ok::<u64, ParseFailure>(vid),
    decreases es.len(),
{
    if es.len() > 0 {
        lemma_native_matches_own(es.drop_last(), vid, ts);
        let f = native_forward_matches(es, vid, ts);
        let f0 = native_forward_matches(es.drop_last(), vid, ts);
        assert forall|x: Seq<u8>| #[trigger] f.contains(x) implies native_vid_of(x) == Ok::<u64, ParseFailure>(vid) by {
            let k = choose|k: int| 0 <= k < f.len() && f[k] == x;
            if k < f0.len() {
                assert(f0[k] == x);
                assert(f0.contains(x));
            }
        }
    }
}

/// Every key in the plan for deleting the native id `vid` is a reverse key among
/// `es`, or a forward key that holds `vid`.
proof fn lemma_native_plan_own(v: VertexIndexView, es: EntryList, space_id: u64, vid: u64, ts: Timestamp)
    ensures
        forall|x: Seq<u8>|
            #[trigger] native_delete_plan(v, es, space_id, vid, ts).0.contains(x) ==> exists|i: int|
                0 <= i < es.len() && #[trigger] es[i].0 == x,
        forall|x: Seq<u8>|
            #[trigger] native_delete_plan(v, es, space_id, vid, ts).1.contains(x) ==> native_vid_of(x) == Ok::<
                u64,
                ParseFailure,
            >(vid),
    decreases es.len(),
{
    if es.len() > 0 {
        let t = es.drop_last();
        lemma_native_plan_own(v, t, space_id, vid, ts);
        let (rk, fk) = native_delete_plan(v, es, space_id, vid, ts);
        let (rk0, fk0) = native_delete_plan(v, t, space_id, vid, ts);
        let (ck, e) = es.last();
        assert forall|x: Seq<u8>| #[trigger] rk.contains(x) implies exists|i: int| 0 <= i < es.len() && #[trigger] es[i].0 == x by {
            let k = choose|k: int| 0 <= k < rk.len() && rk[k] == x;
            if k < rk0.len() {
                assert(rk0[k] == x);
                assert(rk0.contains(x));
                let i = choose|i: int| 0 <= i < t.len() && #[trigger] t[i].0 == x;
                assert(es[i] == t[i]);
            } else {
                assert(es[es.len() - 1].0 == x);
            }
        }
        assert forall|x: Seq<u8>| #[trigger] fk.contains(x) implies native_vid_of(x) == Ok::<u64, ParseFailure>(vid) by {
            let k = choose|k: int| 0 <= k < fk.len() && fk[k] == x;
            if k < fk0.len() {
                assert(fk0[k] == x);
                assert(fk0.contains(x));
            } else {
                let name = native_rev_of(ck)->Ok_0.1;
                let pre = index_prefix_spec(space_id, KEY_TYPE_VERTEX_FORWARD, encode_utf8(name));
                let fr = range_of(v.forward, pre, range_end_spec(pre));
                lemma_native_matches_own(fr, vid, ts);
                let f = native_forward_matches(fr, vid, ts);
                assert(fk == fk0 + f);
                assert(f[k - fk0.len()] == x);
                assert(f.contains(x));
            }
        }
    }
}

/// Deleting a vertex with a native id touches no other vertex: every forward entry
/// it changes holds `vid`, and every reverse entry it changes lies under the
/// vertex's native reverse prefix.
pub proof fn lemma_native_delete_touches_only_vertex(
    old: VertexIndexView,
    new: VertexIndexView,
    space_id: u64,
    vid: u64,
    write_ts: Timestamp,
)
    requires
        ({
            let pre = vertex_reverse_prefix_native_spec(space_id, vid);
            let (rk, fk) = native_delete_plan(old, range_of(old.reverse, pre, range_end_spec(pre)), space_id, vid, write_ts);
            marked(new.forward, old.forward, fk, write_ts) && marked(new.reverse, old.reverse, rk, write_ts)
        }),
    ensures
        forall|k: Seq<u8>|
            #[trigger] find(new.forward, k) != find(old.forward, k) ==> native_vid_of(k) == Ok::<u64, ParseFailure>(vid),
        forall|k: Seq<u8>|
            #[trigger] find(new.reverse, k) != find(old.reverse, k) ==> in_range(
                k,
                vertex_reverse_prefix_native_spec(space_id, vid),
                range_end_spec(vertex_reverse_prefix_native_spec(space_id, vid)),
            ),
{
    let pre = vertex_reverse_prefix_native_spec(space_id, vid);
    let end = range_end_spec(pre);
    let es = range_of(old.reverse, pre, end);
    lemma_native_plan_own(old, es, space_id, vid, write_ts);
    crate::entry_map::lemma_range_of_members(old.reverse, pre, end);
    let (rk, fk) = native_delete_plan(old, es, space_id, vid, write_ts);
    assert forall|k: Seq<u8>| #[trigger] find(new.reverse, k) != find(old.reverse, k) implies in_range(k, pre, end) by {
        assert(rk.contains(k));
        let i = choose|i: int| 0 <= i < es.len() && #[trigger] es[i].0 == k;
        assert(es.contains(es[i]));
    }
    assert forall|k: Seq<u8>| #[trigger] find(new.forward, k) != find(old.forward, k) implies native_vid_of(k) == Ok::<
        u64,
        ParseFailure,
    >(vid) by {
        assert(fk.contains(k));
    }
}

/// The name bytes `nb` start with `tag`.
pub open spec fn starts_with(nb: Seq<u8>, tag: Seq<u8>) -> bool {
    tag.len() <= nb.len() && nb.subrange(0, tag.len() as int) == tag
}

/// Every key that deleting a tag's entries removes is among `es` and reads back to a
/// v2 reverse key naming an index whose name starts with `tag`.
proof fn lemma_tag_plan_own(es: EntryList, c: Option<IndexCompressorView>, tag: Seq<u8>)
    ensures
        tag_plan(es, c, tag) matches Ok(keys) ==> forall|x: Seq<u8>|
            #[trigger] keys.contains(x) ==> (exists|i: int| 0 <= i < es.len() && #[trigger] es[i].0 == x) && (read_key(
                c,
                x,
            ) matches Ok(key) && v2_of(key) matches Ok((_, n)) && starts_with(encode_utf8(n), tag)),
    decreases es.len(),
{
    if es.len() > 0 {
        let t = es.drop_last();
        lemma_tag_plan_own(t, c, tag);
        if let Ok(keys) = tag_plan(es, c, tag) {
            let k0 = tag_plan(t, c, tag)->Ok_0;
            assert forall|x: Seq<u8>| #[trigger] keys.contains(x) implies (exists|i: int|
                0 <= i < es.len() && #[trigger] es[i].0 == x) && (read_key(c, x) matches Ok(key) && v2_of(key) matches Ok(
                (_, n),
            ) && starts_with(encode_utf8(n), tag)) by {
                let k = choose|k: int| 0 <= k < keys.len() && keys[k] == x;
                if k < k0.len() {
                    assert(k0[k] == x);
                    assert(k0.contains(x));
                    let i = choose|i: int| 0 <= i < t.len() && #[trigger] t[i].0 == x;
                    assert(es[i] == t[i]);
                } else {
                    assert(es[es.len() - 1].0 == x);
                }
            }
        }
    }
}

proof fn lemma_tag_plan_ok(es: EntryList, tag: Seq<u8>)
    ensures
        tag_plan(es, None, tag) is Ok,
    decreases es.len(),
{
    if es.len() > 0 {
        lemma_tag_plan_ok(es.drop_last(), tag);
    }
}

/// Deleting a tag's entries removes the reverse entry of every index of the tag: the
/// reverse entry `es[j]`, which reads back to one naming an index under `tag`, is in
/// the plan.
proof fn lemma_tag_plan_contains(es: EntryList, c: Option<IndexCompressorView>, tag: Seq<u8>, j: int, rv: Seq<u8>, name: Seq<char>)
    requires
        0 <= j < es.len(),
        read_key(c, es[j].0) matches Ok(key) && v2_of(key) == Ok::<(Seq<u8>, Seq<char>), ParseFailure>((rv, name)),
        starts_with(encode_utf8(name), tag),
    ensures
        tag_plan(es, c, tag) matches Ok(keys) ==> keys.contains(es[j].0),
    decreases es.len(),
{
    if j < es.len() - 1 {
        assert(es.drop_last()[j] == es[j]);
        lemma_tag_plan_contains(es.drop_last(), c, tag, j, rv, name);
        if let Ok(keys) = tag_plan(es, c, tag) {
            let k0 = tag_plan(es.drop_last(), c, tag)->Ok_0;
            let k = choose|k: int| 0 <= k < k0.len() && k0[k] == es[j].0;
            assert(keys[k] == es[j].0);
        }
    } else {
        if let Ok(keys) = tag_plan(es, c, tag) {
            assert(keys[keys.len() - 1] == es[j].0);
        }
    }
}

/// Deleting the entries of a tag removes exactly the vertex's reverse entries of the
/// indexes under the tag: once `tag_name`'s entries of `vid` have been deleted from
/// an uncompressed index, the reverse entry of `vid` for every index whose name
/// starts with `tag_name` is gone, and every reverse entry that changed belonged to
/// the vertex and named such an index.
pub proof fn lemma_delete_tag_removes_entries(
    old: VertexIndexView,
    new: VertexIndexView,
    space_id: u64,
    vid: Seq<u8>,
    tag: Seq<u8>,
    name: Seq<char>,
)
    requires
        old.compressor is None,
        ({
            let pre = vertex_reverse_prefix_v2_spec(space_id, vid);
            match tag_plan(range_of(old.reverse, pre, range_end_spec(pre)), old.compressor, tag) {
                Err(_) => new.reverse == old.reverse,
                Ok(keys) => removed(new.reverse, old.reverse, keys),
            }
        }),
        vid.len() <= u32::MAX,
        encode_utf8(name).len() <= u32::MAX,
        vertex_reverse_key_v2_spec(space_id, vid, encode_utf8(name)).len() <= isize::MAX,
    ensures
        starts_with(encode_utf8(name), tag) ==> find(new.reverse, vertex_reverse_key_v2_spec(space_id, vid, encode_utf8(name)))
            is None,
        forall|k: Seq<u8>|
            #[trigger] find(new.reverse, k) != find(old.reverse, k) ==> in_range(
                k,
                vertex_reverse_prefix_v2_spec(space_id, vid),
                range_end_spec(vertex_reverse_prefix_v2_spec(space_id, vid)),
            ) && (v2_of(k) matches Ok((_, n)) && starts_with(encode_utf8(n), tag)),
{
    let nb = encode_utf8(name);
    let pre = vertex_reverse_prefix_v2_spec(space_id, vid);
    let end = range_end_spec(pre);
    let es = range_of(old.reverse, pre, end);
    lemma_tag_plan_own(es, None, tag);
    lemma_tag_plan_ok(es, tag);
    crate::entry_map::lemma_range_of_members(old.reverse, pre, end);
    if let Ok(keys) = tag_plan(es, None, tag) {
        assert forall|k: Seq<u8>| #[trigger] find(new.reverse, k) != find(old.reverse, k) implies in_range(k, pre, end)
            && (v2_of(k) matches Ok((_, n)) && starts_with(encode_utf8(n), tag)) by {
            assert(keys.contains(k));
            let i = choose|i: int| 0 <= i < es.len() && #[trigger] es[i].0 == k;
            assert(es.contains(es[i]));
        }
        if starts_with(nb, tag) {
            let rkey = vertex_reverse_key_v2_spec(space_id, vid, nb);
            crate::entry_map::lemma_find_some(old.reverse, rkey);
            if let Some(re) = find(old.reverse, rkey) {
                vstd::bytes::lemma_auto_spec_u64_to_from_le_bytes();
                let i = choose|i: int| 0 <= i < old.reverse.len() && old.reverse[i] == (rkey, re);
                assert(old.reverse.contains(old.reverse[i]));
                let hr = crate::key_codec::key_head(space_id, crate::key_codec::KEY_TYPE_VERTEX_REVERSE);
                assert(hr.len() == 9);
                assert(rkey =~= pre + framed(nb));
                assert(rkey.subrange(0, pre.len() as int) =~= pre);
                assert(pre[8] == crate::key_codec::KEY_TYPE_VERTEX_REVERSE);
                crate::key_codec::lemma_range_covers_prefix(pre, rkey);
                assert(es.contains((rkey, re)));
                let j = choose|j: int| 0 <= j < es.len() && es[j] == (rkey, re);
                crate::key_builder::lemma_vertex_reverse_key_v2_roundtrip(space_id, vid, name);
                lemma_tag_plan_contains(es, None, tag, j, vid, name);
            }
        }
    }
}

/// Reading after writing, with or without compression: a lookup that completes finds
/// every vertex whose forward entry, stored under a key `ck` in the index's scanned
/// range that reads back to the vertex's key under the looked-up value, is visible
/// at the read timestamp.
pub proof fn lemma_lookup_sees_stored_entry(
    v: VertexIndexView,
    space_id: u64,
    name: Seq<char>,
    value: Seq<u8>,
    vid: Seq<u8>,
    ck: Seq<u8>,
    read_ts: Timestamp,
)
    requires
        encode_utf8(name).len() <= u32::MAX,
        value.len() <= u32::MAX,
        vid.len() <= u32::MAX,
        vertex_index_key_spec(space_id, encode_utf8(name), value, vid).len() <= isize::MAX,
        read_key(v.compressor, ck) == Ok::<Seq<u8>, ErrorView>(vertex_index_key_spec(space_id, encode_utf8(name), value, vid)),
        in_range(
            ck,
            index_prefix_spec(space_id, KEY_TYPE_VERTEX_FORWARD, encode_utf8(name)),
            range_end_spec(index_prefix_spec(space_id, KEY_TYPE_VERTEX_FORWARD, encode_utf8(name))),
        ),
        find(v.forward, ck) matches Some(e) && visible_at(e, read_ts),
    ensures
        lookup_spec(v, space_id, name, value, read_ts) matches Some(Ok(found)) ==> found.contains(vid),
{
    let nb = encode_utf8(name);
    let key = vertex_index_key_spec(space_id, nb, value, vid);
    let prefix = index_prefix_spec(space_id, KEY_TYPE_VERTEX_FORWARD, nb);
    let end = range_end_spec(prefix);
    let e = find(v.forward, ck)->Some_0;
    crate::entry_map::lemma_find_some(v.forward, ck);
    let i = choose|i: int| 0 <= i < v.forward.len() && v.forward[i] == (ck, e);
    assert(v.forward.contains(v.forward[i]));
    crate::entry_map::lemma_range_of_members(v.forward, prefix, end);
    let es = range_of(v.forward, prefix, end);
    assert(es.contains((ck, e)));
    let j = choose|j: int| 0 <= j < es.len() && es[j] == (ck, e);
    vstd::bytes::lemma_auto_spec_u64_to_from_le_bytes();
    let h = crate::key_codec::key_head(space_id, KEY_TYPE_VERTEX_FORWARD);
    assert(h.len() == 9);
    crate::key_codec::lemma_vertex_index_key_roundtrip(space_id, nb, value, vid);
    crate::bytes::lemma_framed_parts(prefix, value, framed(vid));
    assert(key =~= prefix + framed(value) + framed(vid));
    lemma_scan_contains(es, v.compressor, prefix.len() as int, value, read_ts, j, key, vid);
}

/// A visible entry whose stored key reads back to one that holds `vid`, and ends with
/// it, is matched by a match that completes.
proof fn lemma_stored_matches_contains(es: EntryList, c: Option<IndexCompressorView>, vid: Seq<u8>, ts: Timestamp, j: int, key: Seq<u8>)
    requires
        0 <= j < es.len(),
        visible_at(es[j].1, ts),
        read_key(c, es[j].0) == Ok::<Seq<u8>, ErrorView>(key),
        vid_of(key) == Ok::<Seq<u8>, ParseFailure>(vid),
        key.len() >= vid.len(),
        key.subrange(key.len() - vid.len(), key.len() as int) == vid,
    ensures
        forward_matches(es, c, vid, ts) matches Ok(f) ==> f.contains(es[j].0),
    decreases es.len(),
{
    if j < es.len() - 1 {
        assert(es.drop_last()[j] == es[j]);
        lemma_stored_matches_contains(es.drop_last(), c, vid, ts, j, key);
        if let Ok(f) = forward_matches(es, c, vid, ts) {
            let f0 = forward_matches(es.drop_last(), c, vid, ts)->Ok_0;
            let k = choose|k: int| 0 <= k < f0.len() && f0[k] == es[j].0;
            assert(f[k] == es[j].0);
        }
    } else {
        if let Ok(f) = forward_matches(es, c, vid, ts) {
            assert(f[f.len() - 1] == es[j].0);
        }
    }
}

/// A plan for deleting `vid` that completes marks every forward key that the visible
/// reverse entry `es[j]`, naming index `name`, leads to.
proof fn lemma_stored_plan_contains(
    v: VertexIndexView,
    es: EntryList,
    space_id: u64,
    vid: Seq<u8>,
    ts: Timestamp,
    j: int,
    name: Seq<char>,
    rv: Seq<u8>,
)
    requires
        0 <= j < es.len(),
        visible_at(es[j].1, ts),
        read_key(v.compressor, es[j].0) matches Ok(key) && v2_of(key) == Ok::<(Seq<u8>, Seq<char>), ParseFailure>(
            (rv, name),
        ),
    ensures
        ({
            let pre = index_prefix_spec(space_id, KEY_TYPE_VERTEX_FORWARD, encode_utf8(name));
            delete_plan(v, es, space_id, vid, ts) matches Ok((rk, fk)) ==> (forward_matches(
                range_of(v.forward, pre, range_end_spec(pre)),
                v.compressor,
                vid,
                ts,
            ) matches Ok(f) && forall|x: Seq<u8>| f.contains(x) ==> fk.contains(x))
        }),
    decreases es.len(),
{
    let pre = index_prefix_spec(space_id, KEY_TYPE_VERTEX_FORWARD, encode_utf8(name));
    let fr = range_of(v.forward, pre, range_end_spec(pre));
    if let Ok((rk, fk)) = delete_plan(v, es, space_id, vid, ts) {
        let (rk0, fk0) = delete_plan(v, es.drop_last(), space_id, vid, ts)->Ok_0;
        if j < es.len() - 1 {
            assert(es.drop_last()[j] == es[j]);
            lemma_stored_plan_contains(v, es.drop_last(), space_id, vid, ts, j, name, rv);
            let f = forward_matches(fr, v.compressor, vid, ts)->Ok_0;
            assert forall|x: Seq<u8>| f.contains(x) implies fk.contains(x) by {
                assert(fk0.contains(x));
                let k = choose|k: int| 0 <= k < fk0.len() && fk0[k] == x;
                assert(fk[k] == x);
            }
        } else {
            let f = forward_matches(fr, v.compressor, vid, ts)->Ok_0;
            assert(fk == fk0 + f);
            assert forall|x: Seq<u8>| f.contains(x) implies fk.contains(x) by {
                let k = choose|k: int| 0 <= k < f.len() && f[k] == x;
                assert(fk[fk0.len() + k] == x);
            }
        }
    }
}

/// Deleting a vertex hides its entries, with or without compression: once a deletion
/// of `vid` at `write_ts` has completed, for each index `name` whose reverse entry
/// of the vertex is stored under a key `crk` in the vertex's scanned reverse range and
/// visible at `write_ts`, the vertex's forward entry under any value in that index,
/// stored under a key `cfk` in the index's scanned range and created no later than
/// `write_ts`, is not visible at `write_ts` or after.
pub proof fn lemma_delete_hides_stored_entry(
    old: VertexIndexView,
    new: VertexIndexView,
    space_id: u64,
    name: Seq<char>,
    value: Seq<u8>,
    vid: Seq<u8>,
    crk: Seq<u8>,
    cfk: Seq<u8>,
    write_ts: Timestamp,
    read_ts: Timestamp,
)
    requires
        ({
            let pre = vertex_reverse_prefix_v2_spec(space_id, vid);
            delete_plan(old, range_of(old.reverse, pre, range_end_spec(pre)), space_id, vid, write_ts) matches Ok((rk, fk))
                && marked(new.forward, old.forward, fk, write_ts)
        }),
        read_key(old.compressor, crk) == Ok::<Seq<u8>, ErrorView>(vertex_reverse_key_v2_spec(space_id, vid, encode_utf8(name))),
        in_range(crk, vertex_reverse_prefix_v2_spec(space_id, vid), range_end_spec(vertex_reverse_prefix_v2_spec(space_id, vid))),
        find(old.reverse, crk) matches Some(e) && visible_at(e, write_ts),
        read_key(old.compressor, cfk) == Ok::<Seq<u8>, ErrorView>(vertex_index_key_spec(space_id, encode_utf8(name), value, vid)),
        in_range(
            cfk,
            index_prefix_spec(space_id, KEY_TYPE_VERTEX_FORWARD, encode_utf8(name)),
            range_end_spec(index_prefix_spec(space_id, KEY_TYPE_VERTEX_FORWARD, encode_utf8(name))),
        ),
        find(old.forward, cfk) matches Some(f) && f.created_ts <= write_ts,
        write_ts <= read_ts,
        encode_utf8(name).len() <= u32::MAX,
        value.len() <= u32::MAX,
        vid.len() <= u32::MAX,
        vertex_index_key_spec(space_id, encode_utf8(name), value, vid).len() <= isize::MAX,
        vertex_reverse_key_v2_spec(space_id, vid, encode_utf8(name)).len() <= isize::MAX,
    ensures
        find(new.forward, cfk) matches Some(g) && !visible_at(g, read_ts),
{
    let nb = encode_utf8(name);
    vstd::bytes::lemma_auto_spec_u64_to_from_le_bytes();
    let rpre = vertex_reverse_prefix_v2_spec(space_id, vid);
    let rend = range_end_spec(rpre);
    let re = find(old.reverse, crk)->Some_0;
    crate::entry_map::lemma_find_some(old.reverse, crk);
    let i = choose|i: int| 0 <= i < old.reverse.len() && old.reverse[i] == (crk, re);
    assert(old.reverse.contains(old.reverse[i]));
    crate::entry_map::lemma_range_of_members(old.reverse, rpre, rend);
    let res = range_of(old.reverse, rpre, rend);
    assert(res.contains((crk, re)));
    let j = choose|j: int| 0 <= j < res.len() && res[j] == (crk, re);
    crate::key_builder::lemma_vertex_reverse_key_v2_roundtrip(space_id, vid, name);
    lemma_stored_plan_contains(old, res, space_id, vid, write_ts, j, name, vid);
    let (rk, fk) = delete_plan(old, res, space_id, vid, write_ts)->Ok_0;
    let key = vertex_index_key_spec(space_id, nb, value, vid);
    let fe = find(old.forward, cfk)->Some_0;
    if visible_at(fe, write_ts) {
        let pre = index_prefix_spec(space_id, KEY_TYPE_VERTEX_FORWARD, nb);
        let end = range_end_spec(pre);
        crate::entry_map::lemma_find_some(old.forward, cfk);
        let m = choose|m: int| 0 <= m < old.forward.len() && old.forward[m] == (cfk, fe);
        assert(old.forward.contains(old.forward[m]));
        crate::entry_map::lemma_range_of_members(old.forward, pre, end);
        let fes = range_of(old.forward, pre, end);
        assert(fes.contains((cfk, fe)));
        let q = choose|q: int| 0 <= q < fes.len() && fes[q] == (cfk, fe);
        let h = crate::key_codec::key_head(space_id, KEY_TYPE_VERTEX_FORWARD);
        assert(h.len() == 9);
        crate::key_codec::lemma_vertex_index_key_roundtrip(space_id, nb, value, vid);
        assert(key =~= (h + framed(nb) + framed(value) + vstd::bytes::spec_u32_to_le_bytes(vid.len() as u32)) + vid);
        assert(key.subrange(key.len() - vid.len(), key.len() as int) =~= vid);
        lemma_stored_matches_contains(fes, old.compressor, vid, write_ts, q, key);
        assert(fk.contains(cfk));
    }
}

} // verus!
