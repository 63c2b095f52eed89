//! Soundness of the vertex index lookups: every vertex a lookup finds comes from a
//! forward entry of the index, visible at the read timestamp, whose key holds the
//! looked-up value (or a value of the looked-up range).
use vstd::prelude::*;
use vstd::utf8::*;
use crate::bytes::{u32_at, framed};
use crate::compression::IndexCompressorView;
use crate::entry_map::{EntryList, range_of, in_range, find};
use crate::error::ErrorView;
use crate::key_codec::{index_prefix_spec, range_end_spec, vertex_index_key_spec, KEY_TYPE_VERTEX_FORWARD};
use crate::key_builder::vertex_index_key_native_spec;
use crate::key_parser::ParseFailure;
use crate::mvcc::{IndexEntry, Timestamp, visible_at};
use crate::vertex_index::{
    VertexIndexView, lookup_scan, lookup_spec, range_scan, read_key, vid_of, native_lookup_scan, native_lookup_spec,
    native_range_scan, native_vid_of, composite_of, composite_scan,
};

verus! {

/// The stored entry `x` is visible at `read_ts`, and its key reads back to one that
/// holds the vertex id `vid` and, right after its first `p` bytes, `value`: the
/// value's length as four little-endian bytes, then the value itself.
pub open spec fn holds_value(
    c: Option<IndexCompressorView>,
    x: (Seq<u8>, IndexEntry),
    p: int,
    value: Seq<u8>,
    read_ts: Timestamp,
    vid: Seq<u8>,
) -> bool {
    visible_at(x.1, read_ts) && match read_key(c, x.0) {
        Ok(key) => {
            &&& vid_of(key) == Ok::<Seq<u8>, ParseFailure>(vid)
            &&& p + 4 + value.len() <= key.len()
            &&& u32_at(key, p) == value.len()
            &&& key.subrange(p + 4, p + 4 + value.len()) == value
        },
        Err(_) => false,
    }
}

/// The stored entry `x` is visible at `read_ts`, and its key reads back to one that
/// holds the vertex id `vid` and, after its first `p` bytes, a length-prefixed
/// value that lies in `[start, end)` of byte order.
pub open spec fn holds_value_in(
    c: Option<IndexCompressorView>,
    x: (Seq<u8>, IndexEntry),
    p: int,
    start: Seq<u8>,
    end: Seq<u8>,
    read_ts: Timestamp,
    vid: Seq<u8>,
) -> bool {
    visible_at(x.1, read_ts) && match read_key(c, x.0) {
        Ok(key) => {
            &&& vid_of(key) == Ok::<Seq<u8>, ParseFailure>(vid)
            &&& p + 4 + u32_at(key, p) <= key.len()
            &&& in_range(key.subrange(p + 4, p + 4 + u32_at(key, p)), start, end)
        },
        Err(_) => false,
    }
}

/// The entry `x` is visible at `read_ts`, and its key holds the native vertex id
/// `vid` and, right after its first `p` bytes, `value`, length first.
pub open spec fn native_holds_value(x: (Seq<u8>, IndexEntry), p: int, value: Seq<u8>, read_ts: Timestamp, vid: u64) -> bool {
    &&& visible_at(x.1, read_ts)
    &&& native_vid_of(x.0) == Ok::<u64, ParseFailure>(vid)
    &&& p + 4 + value.len() <= x.0.len()
    &&& u32_at(x.0, p) == value.len()
    &&& x.0.subrange(p + 4, p + 4 + value.len()) == value
}

/// The entry `x` is visible at `read_ts`, and its key holds the native vertex id
/// `vid` and, after its first `p` bytes, a length-prefixed value in `[start, end)`.
pub open spec fn native_holds_value_in(
    x: (Seq<u8>, IndexEntry),
    p: int,
    start: Seq<u8>,
    end: Seq<u8>,
    read_ts: Timestamp,
    vid: u64,
) -> bool {
    &&& visible_at(x.1, read_ts)
    &&& native_vid_of(x.0) == Ok::<u64, ParseFailure>(vid)
    &&& p + 4 + u32_at(x.0, p) <= x.0.len()
    &&& in_range(x.0.subrange(p + 4, p + 4 + u32_at(x.0, p)), start, end)
}

/// Some entry of `es` holds `value` and the vertex id `vid` (`holds_value`).
pub open spec fn some_entry_with(
    es: EntryList,
    c: Option<IndexCompressorView>,
    p: int,
    value: Seq<u8>,
    read_ts: Timestamp,
    vid: Seq<u8>,
) -> bool {
    exists|i: int| 0 <= i < es.len() && #[trigger] holds_value(c, es[i], p, value, read_ts, vid)
}

/// Some entry of `es` holds the vertex id `vid` and a value in `[start, end)`
/// (`holds_value_in`).
pub open spec fn some_entry_in(
    es: EntryList,
    c: Option<IndexCompressorView>,
    p: int,
    start: Seq<u8>,
    end: Seq<u8>,
    read_ts: Timestamp,
    vid: Seq<u8>,
) -> bool {
    exists|i: int| 0 <= i < es.len() && #[trigger] holds_value_in(c, es[i], p, start, end, read_ts, vid)
}

/// Some entry of `forward`, with a key in `[lo, hi)`, holds `value` and the
/// vertex id `vid`.
pub open spec fn indexed_with(
    forward: EntryList,
    lo: Seq<u8>,
    hi: Seq<u8>,
    c: Option<IndexCompressorView>,
    p: int,
    value: Seq<u8>,
    read_ts: Timestamp,
    vid: Seq<u8>,
) -> bool {
    exists|x: (Seq<u8>, IndexEntry)|
        #[trigger] forward.contains(x) && in_range(x.0, lo, hi) && holds_value(c, x, p, value, read_ts, vid)
}

/// Some entry of `forward`, with a key in `[lo, hi)`, holds the vertex id `vid`
/// and a value in `[start, end)`.
pub open spec fn indexed_in(
    forward: EntryList,
    lo: Seq<u8>,
    hi: Seq<u8>,
    c: Option<IndexCompressorView>,
    p: int,
    start: Seq<u8>,
    end: Seq<u8>,
    read_ts: Timestamp,
    vid: Seq<u8>,
) -> bool {
    exists|x: (Seq<u8>, IndexEntry)|
        #[trigger] forward.contains(x) && in_range(x.0, lo, hi) && holds_value_in(c, x, p, start, end, read_ts, vid)
}

/// Every id that a lookup scan of `es` gives, when it completes, comes from an entry
/// of `es` that holds the value.
pub proof fn lemma_scan_sound(es: EntryList, c: Option<IndexCompressorView>, p: int, value: Seq<u8>, read_ts: Timestamp)
    ensures
        lookup_scan(es, c, p, value, read_ts) matches Some(Ok(found)) ==> forall|j: int|
            0 <= j < found.len() ==> #[trigger] some_entry_with(es, c, p, value, read_ts, found[j]),
    decreases es.len(),
{
    if es.len() > 0 {
        let t = es.drop_last();
        lemma_scan_sound(t, c, p, value, read_ts);
        if let Some(Ok(found)) = lookup_scan(es, c, p, value, read_ts) {
            let f0 = lookup_scan(t, c, p, value, read_ts)->Some_0->Ok_0;
            assert forall|j: int| 0 <= j < found.len() implies #[trigger] some_entry_with(es, c, p, value, read_ts, found[j]) by {
                if j < f0.len() {
                    assert(found[j] == f0[j]);
                    assert(some_entry_with(t, c, p, value, read_ts, f0[j]));
                    let i = choose|i: int| 0 <= i < t.len() && #[trigger] holds_value(c, t[i], p, value, read_ts, f0[j]);
                    assert(es[i] == t[i]);
                } else {
                    assert(holds_value(c, es[es.len() - 1], p, value, read_ts, found[j]));
                }
            }
        }
    }
}

/// Only matches are found: every vertex id in the result of a lookup of `value` at
/// `read_ts` that completes comes from a forward entry of the index, visible at
/// `read_ts`, whose key holds exactly `value` as its property bytes.
pub proof fn lemma_lookup_finds_only_matches(
    v: VertexIndexView,
    space_id: u64,
    name: Seq<char>,
    value: Seq<u8>,
    read_ts: Timestamp,
)
    ensures
        ({
            let prefix = index_prefix_spec(space_id, KEY_TYPE_VERTEX_FORWARD, encode_utf8(name));
            lookup_spec(v, space_id, name, value, read_ts) matches Some(Ok(found)) ==> forall|j: int|
                0 <= j < found.len() ==> #[trigger] indexed_with(
                    v.forward,
                    prefix,
                    range_end_spec(prefix),
                    v.compressor,
                    prefix.len() as int,
                    value,
                    read_ts,
                    found[j],
                )
        }),
{
    let prefix = index_prefix_spec(space_id, KEY_TYPE_VERTEX_FORWARD, encode_utf8(name));
    let end = range_end_spec(prefix);
    let es = range_of(v.forward, prefix, end);
    let p = prefix.len() as int;
    lemma_scan_sound(es, v.compressor, p, value, read_ts);
    crate::entry_map::lemma_range_of_members(v.forward, prefix, end);
    if let Some(Ok(found)) = lookup_spec(v, space_id, name, value, read_ts) {
        assert forall|j: int| 0 <= j < found.len() implies #[trigger] indexed_with(
            v.forward,
            prefix,
            end,
            v.compressor,
            p,
            value,
            read_ts,
            found[j],
        ) by {
            assert(some_entry_with(es, v.compressor, p, value, read_ts, found[j]));
            let i = choose|i: int| 0 <= i < es.len() && #[trigger] holds_value(v.compressor, es[i], p, value, read_ts, found[j]);
            assert(es.contains(es[i]));
        }
    }
}

/// Every id that a range scan of `es` gives comes from an entry of `es` whose value
/// lies in `[start, end)`.
pub proof fn lemma_range_scan_sound(
    es: EntryList,
    c: Option<IndexCompressorView>,
    p: int,
    start: Seq<u8>,
    end: Seq<u8>,
    read_ts: Timestamp,
)
    ensures
        range_scan(es, c, p, start, end, read_ts) matches Ok(found) ==> forall|j: int|
            0 <= j < found.len() ==> #[trigger] some_entry_in(es, c, p, start, end, read_ts, found[j]),
    decreases es.len(),
{
    if es.len() > 0 {
        let t = es.drop_last();
        lemma_range_scan_sound(t, c, p, start, end, read_ts);
        if let Ok(found) = range_scan(es, c, p, start, end, read_ts) {
            let f0 = range_scan(t, c, p, start, end, read_ts)->Ok_0;
            assert forall|j: int| 0 <= j < found.len() implies #[trigger] some_entry_in(es, c, p, start, end, read_ts, found[j]) by {
                if j < f0.len() {
                    assert(found[j] == f0[j]);
                    assert(some_entry_in(t, c, p, start, end, read_ts, f0[j]));
                    let i = choose|i: int|
                        0 <= i < t.len() && #[trigger] holds_value_in(c, t[i], p, start, end, read_ts, f0[j]);
                    assert(es[i] == t[i]);
                } else {
                    assert(holds_value_in(c, es[es.len() - 1], p, start, end, read_ts, found[j]));
                }
            }
        }
    }
}

/// Range lookups find only entries visible at the read timestamp, with values in the
/// range: every vertex id in the result of a range lookup of `[start, end)` at
/// `read_ts` (over the keys from that of (`start`, `low_id`) to that of (`end`,
/// `high_id`)) comes from a forward entry of the index, visible at `read_ts`, whose
/// key holds a value in `[start, end)`. A deleted entry is never returned.
pub proof fn lemma_range_lookup_finds_only_matches(
    v: VertexIndexView,
    space_id: u64,
    name: Seq<char>,
    start: Seq<u8>,
    end: Seq<u8>,
    low_id: Seq<u8>,
    high_id: Seq<u8>,
    read_ts: Timestamp,
)
    ensures
        ({
            let nb = encode_utf8(name);
            let lo = vertex_index_key_spec(space_id, nb, start, low_id);
            let hi = vertex_index_key_spec(space_id, nb, end, high_id);
            let p = index_prefix_spec(space_id, KEY_TYPE_VERTEX_FORWARD, nb).len() as int;
            range_scan(range_of(v.forward, lo, hi), v.compressor, p, start, end, read_ts) matches Ok(found)
                ==> forall|j: int|
                0 <= j < found.len() ==> #[trigger] indexed_in(v.forward, lo, hi, v.compressor, p, start, end, read_ts, found[j])
        }),
{
    let nb = encode_utf8(name);
    let lo = vertex_index_key_spec(space_id, nb, start, low_id);
    let hi = vertex_index_key_spec(space_id, nb, end, high_id);
    let p = index_prefix_spec(space_id, KEY_TYPE_VERTEX_FORWARD, nb).len() as int;
    let es = range_of(v.forward, lo, hi);
    lemma_range_scan_sound(es, v.compressor, p, start, end, read_ts);
    crate::entry_map::lemma_range_of_members(v.forward, lo, hi);
    if let Ok(found) = range_scan(es, v.compressor, p, start, end, read_ts) {
        assert forall|j: int| 0 <= j < found.len() implies #[trigger] indexed_in(
            v.forward,
            lo,
            hi,
            v.compressor,
            p,
            start,
            end,
            read_ts,
            found[j],
        ) by {
            assert(some_entry_in(es, v.compressor, p, start, end, read_ts, found[j]));
            let i = choose|i: int|
                0 <= i < es.len() && #[trigger] holds_value_in(v.compressor, es[i], p, start, end, read_ts, found[j]);
            assert(es.contains(es[i]));
        }
    }
}

/// Some entry of `es` holds `value` and the native vertex id `vid`
/// (`native_holds_value`).
pub open spec fn some_native_entry_with(es: EntryList, p: int, value: Seq<u8>, read_ts: Timestamp, vid: u64) -> bool {
    exists|i: int| 0 <= i < es.len() && #[trigger] native_holds_value(es[i], p, value, read_ts, vid)
}

/// Some entry of `es` holds the native vertex id `vid` and a value in `[start, end)`
/// (`native_holds_value_in`).
pub open spec fn some_native_entry_in(es: EntryList, p: int, start: Seq<u8>, end: Seq<u8>, read_ts: Timestamp, vid: u64) -> bool {
    exists|i: int| 0 <= i < es.len() && #[trigger] native_holds_value_in(es[i], p, start, end, read_ts, vid)
}

/// Some entry of `forward`, with a key in `[lo, hi)`, holds `value` and the native
/// vertex id `vid`.
pub open spec fn native_indexed_with(
    forward: EntryList,
    lo: Seq<u8>,
    hi: Seq<u8>,
    p: int,
    value: Seq<u8>,
    read_ts: Timestamp,
    vid: u64,
) -> bool {
    exists|x: (Seq<u8>, IndexEntry)|
        #[trigger] forward.contains(x) && in_range(x.0, lo, hi) && native_holds_value(x, p, value, read_ts, vid)
}

/// Some entry of `forward`, with a key in `[lo, hi)`, holds the native vertex id
/// `vid` and a value in `[start, end)`.
pub open spec fn native_indexed_in(
    forward: EntryList,
    lo: Seq<u8>,
    hi: Seq<u8>,
    p: int,
    start: Seq<u8>,
    end: Seq<u8>,
    read_ts: Timestamp,
    vid: u64,
) -> bool {
    exists|x: (Seq<u8>, IndexEntry)|
        #[trigger] forward.contains(x) && in_range(x.0, lo, hi) && native_holds_value_in(x, p, start, end, read_ts, vid)
}

/// Every id that a native lookup scan of `es` gives, when it completes, comes from
/// an entry of `es` that holds the value.
pub proof fn lemma_native_scan_sound(es: EntryList, p: int, value: Seq<u8>, read_ts: Timestamp)
    ensures
        native_lookup_scan(es, p, value, read_ts) matches Some(found) ==> forall|j: int|
            0 <= j < found.len() ==> #[trigger] some_native_entry_with(es, p, value, read_ts, found[j]),
    decreases es.len(),
{
    if es.len() > 0 {
        let t = es.drop_last();
        lemma_native_scan_sound(t, p, value, read_ts);
        if let Some(found) = native_lookup_scan(es, p, value, read_ts) {
            let f0 = native_lookup_scan(t, p, value, read_ts)->Some_0;
            assert forall|j: int| 0 <= j < found.len() implies #[trigger] some_native_entry_with(
                es,
                p,
                value,
                read_ts,
                found[j],
            ) by {
                if j < f0.len() {
                    assert(found[j] == f0[j]);
                    assert(some_native_entry_with(t, p, value, read_ts, f0[j]));
                    let i = choose|i: int| 0 <= i < t.len() && #[trigger] native_holds_value(t[i], p, value, read_ts, f0[j]);
                    assert(es[i] == t[i]);
                } else {
                    assert(native_holds_value(es[es.len() - 1], p, value, read_ts, found[j]));
                }
            }
        }
    }
}

/// Only matches are found, for native ids: every vertex id in the result of a native
/// lookup of `value` at `read_ts` that completes comes from a forward entry of the
/// index, visible at `read_ts`, whose key holds exactly `value` as its property
/// bytes.
pub proof fn lemma_native_lookup_finds_only_matches(
    v: VertexIndexView,
    space_id: u64,
    name: Seq<char>,
    value: Seq<u8>,
    read_ts: Timestamp,
)
    ensures
        ({
            let prefix = index_prefix_spec(space_id, KEY_TYPE_VERTEX_FORWARD, encode_utf8(name));
            native_lookup_spec(v, space_id, name, value, read_ts) matches Some(found) ==> forall|j: int|
                0 <= j < found.len() ==> #[trigger] native_indexed_with(
                    v.forward,
                    prefix,
                    range_end_spec(prefix),
                    prefix.len() as int,
                    value,
                    read_ts,
                    found[j],
                )
        }),
{
    let prefix = index_prefix_spec(space_id, KEY_TYPE_VERTEX_FORWARD, encode_utf8(name));
    let end = range_end_spec(prefix);
    let es = range_of(v.forward, prefix, end);
    let p = prefix.len() as int;
    lemma_native_scan_sound(es, p, value, read_ts);
    crate::entry_map::lemma_range_of_members(v.forward, prefix, end);
    if let Some(found) = native_lookup_spec(v, space_id, name, value, read_ts) {
        assert forall|j: int| 0 <= j < found.len() implies #[trigger] native_indexed_with(
            v.forward,
            prefix,
            end,
            p,
            value,
            read_ts,
            found[j],
        ) by {
            assert(some_native_entry_with(es, p, value, read_ts, found[j]));
            let i = choose|i: int| 0 <= i < es.len() && #[trigger] native_holds_value(es[i], p, value, read_ts, found[j]);
            assert(es.contains(es[i]));
        }
    }
}

/// Every id that a native range scan of `es` gives comes from an entry of `es` whose
/// value lies in `[start, end)`.
pub proof fn lemma_native_range_scan_sound(es: EntryList, p: int, start: Seq<u8>, end: Seq<u8>, read_ts: Timestamp)
    ensures
        forall|j: int|
            0 <= j < native_range_scan(es, p, start, end, read_ts).len() ==> #[trigger] some_native_entry_in(
                es,
                p,
                start,
                end,
                read_ts,
                native_range_scan(es, p, start, end, read_ts)[j],
            ),
    decreases es.len(),
{
    if es.len() > 0 {
        let t = es.drop_last();
        lemma_native_range_scan_sound(t, p, start, end, read_ts);
        let found = native_range_scan(es, p, start, end, read_ts);
        let f0 = native_range_scan(t, p, start, end, read_ts);
        assert forall|j: int| 0 <= j < found.len() implies #[trigger] some_native_entry_in(
            es,
            p,
            start,
            end,
            read_ts,
            found[j],
        ) by {
            if j < f0.len() {
                assert(found[j] == f0[j]);
                assert(some_native_entry_in(t, p, start, end, read_ts, f0[j]));
                let i = choose|i: int|
                    0 <= i < t.len() && #[trigger] native_holds_value_in(t[i], p, start, end, read_ts, f0[j]);
                assert(es[i] == t[i]);
            } else {
                assert(native_holds_value_in(es[es.len() - 1], p, start, end, read_ts, found[j]));
            }
        }
    }
}

/// Native range lookups find only entries visible at the read timestamp, with values
/// in the range: every vertex id in the result of a native range lookup of `[start,
/// end)` at `read_ts` comes from a forward entry of the index, visible at
/// `read_ts`, whose key holds a value in `[start, end)`.
pub proof fn lemma_native_range_lookup_finds_only_matches(
    v: VertexIndexView,
    space_id: u64,
    name: Seq<char>,
    start: Seq<u8>,
    end: Seq<u8>,
    read_ts: Timestamp,
)
    ensures
        ({
            let nb = encode_utf8(name);
            let lo = vertex_index_key_native_spec(space_id, nb, start, 0);
            let hi = vertex_index_key_native_spec(space_id, nb, end, u64::MAX);
            let p = index_prefix_spec(space_id, KEY_TYPE_VERTEX_FORWARD, nb).len() as int;
            let found = native_range_scan(range_of(v.forward, lo, hi), p, start, end, read_ts);
            forall|j: int| 0 <= j < found.len() ==> #[trigger] native_indexed_in(v.forward, lo, hi, p, start, end, read_ts, found[j])
        }),
{
    let nb = encode_utf8(name);
    let lo = vertex_index_key_native_spec(space_id, nb, start, 0);
    let hi = vertex_index_key_native_spec(space_id, nb, end, u64::MAX);
    let p = index_prefix_spec(space_id, KEY_TYPE_VERTEX_FORWARD, nb).len() as int;
    let es = range_of(v.forward, lo, hi);
    let found = native_range_scan(es, p, start, end, read_ts);
    lemma_native_range_scan_sound(es, p, start, end, read_ts);
    crate::entry_map::lemma_range_of_members(v.forward, lo, hi);
    assert forall|j: int| 0 <= j < found.len() implies #[trigger] native_indexed_in(
        v.forward,
        lo,
        hi,
        p,
        start,
        end,
        read_ts,
        found[j],
    ) by {
        assert(some_native_entry_in(es, p, start, end, read_ts, found[j]));
        let i = choose|i: int| 0 <= i < es.len() && #[trigger] native_holds_value_in(es[i], p, start, end, read_ts, found[j]);
        assert(es.contains(es[i]));
    }
}

/// The entry `x` is visible at `read_ts` and its key reads as a composite key of the
/// vertex `vid` whose first field values are `fields` and, when `whole`, no others.
pub open spec fn composite_holds(x: (Seq<u8>, IndexEntry), fields: Seq<Seq<u8>>, whole: bool, read_ts: Timestamp, vid: Seq<u8>) -> bool {
    visible_at(x.1, read_ts) && match composite_of(x.0) {
        Ok((sv, id)) => {
            &&& id == vid
            &&& fields.len() <= sv.len()
            &&& sv.subrange(0, fields.len() as int) == fields
            &&& whole ==> sv.len() == fields.len()
        },
        Err(_) => false,
    }
}

/// Some entry of `es` is a composite entry of `vid` under `fields` (`composite_holds`).
pub open spec fn some_composite_entry(es: EntryList, fields: Seq<Seq<u8>>, whole: bool, read_ts: Timestamp, vid: Seq<u8>) -> bool {
    exists|i: int| 0 <= i < es.len() && #[trigger] composite_holds(es[i], fields, whole, read_ts, vid)
}

/// Some entry of `forward`, with a key in `[lo, hi)`, is a composite entry of `vid`
/// under `fields`.
pub open spec fn composite_indexed(
    forward: EntryList,
    lo: Seq<u8>,
    hi: Seq<u8>,
    fields: Seq<Seq<u8>>,
    whole: bool,
    read_ts: Timestamp,
    vid: Seq<u8>,
) -> bool {
    exists|x: (Seq<u8>, IndexEntry)|
        #[trigger] forward.contains(x) && in_range(x.0, lo, hi) && composite_holds(x, fields, whole, read_ts, vid)
}

/// Every id that a composite scan of `es` gives comes from a composite entry of `es`
/// under the fields.
pub proof fn lemma_composite_scan_sound(es: EntryList, fields: Seq<Seq<u8>>, whole: bool, read_ts: Timestamp)
    ensures
        forall|j: int|
            0 <= j < composite_scan(es, fields, whole, read_ts).len() ==> #[trigger] some_composite_entry(
                es,
                fields,
                whole,
                read_ts,
                composite_scan(es, fields, whole, read_ts)[j],
            ),
    decreases es.len(),
{
    if es.len() > 0 {
        let t = es.drop_last();
        lemma_composite_scan_sound(t, fields, whole, read_ts);
        let found = composite_scan(es, fields, whole, read_ts);
        let f0 = composite_scan(t, fields, whole, read_ts);
        assert forall|j: int| 0 <= j < found.len() implies #[trigger] some_composite_entry(
            es,
            fields,
            whole,
            read_ts,
            found[j],
        ) by {
            if j < f0.len() {
                assert(found[j] == f0[j]);
                assert(some_composite_entry(t, fields, whole, read_ts, f0[j]));
                let i = choose|i: int| 0 <= i < t.len() && #[trigger] composite_holds(t[i], fields, whole, read_ts, f0[j]);
                assert(es[i] == t[i]);
            } else {
                assert(composite_holds(es[es.len() - 1], fields, whole, read_ts, found[j]));
            }
        }
    }
}

/// Composite lookups find only matches: every vertex id that a composite lookup of
/// `fields` in the index named `name` gives at `read_ts` (of all the fields when
/// `whole`, else of a leading part) comes from a forward entry of the index, visible
/// at `read_ts`, whose key holds `fields` as its first field values (and, when
/// `whole`, no others).
pub proof fn lemma_composite_lookup_finds_only_matches(
    v: VertexIndexView,
    space_id: u64,
    name: Seq<u8>,
    fields: Seq<Seq<u8>>,
    whole: bool,
    read_ts: Timestamp,
)
    ensures
        ({
            let pre = index_prefix_spec(space_id, KEY_TYPE_VERTEX_FORWARD, name);
            let found = composite_scan(range_of(v.forward, pre, range_end_spec(pre)), fields, whole, read_ts);
            forall|j: int|
                0 <= j < found.len() ==> #[trigger] composite_indexed(
                    v.forward,
                    pre,
                    range_end_spec(pre),
                    fields,
                    whole,
                    read_ts,
                    found[j],
                )
        }),
{
    let pre = index_prefix_spec(space_id, KEY_TYPE_VERTEX_FORWARD, name);
    let end = range_end_spec(pre);
    let es = range_of(v.forward, pre, end);
    let found = composite_scan(es, fields, whole, read_ts);
    lemma_composite_scan_sound(es, fields, whole, read_ts);
    crate::entry_map::lemma_range_of_members(v.forward, pre, end);
    assert forall|j: int| 0 <= j < found.len() implies #[trigger] composite_indexed(
        v.forward,
        pre,
        end,
        fields,
        whole,
        read_ts,
        found[j],
    ) by {
        assert(some_composite_entry(es, fields, whole, read_ts, found[j]));
        let i = choose|i: int| 0 <= i < es.len() && #[trigger] composite_holds(es[i], fields, whole, read_ts, found[j]);
        assert(es.contains(es[i]));
    }
}

/// A range scan that completes finds the vertex id of every visible entry whose key
/// reads back to one holding a value in the range.
proof fn lemma_range_scan_contains(
    es: EntryList,
    c: Option<IndexCompressorView>,
    p: int,
    start: Seq<u8>,
    end: Seq<u8>,
    read_ts: Timestamp,
    j: int,
    key: Seq<u8>,
    vid: Seq<u8>,
)
    requires
        0 <= j < es.len(),
        holds_value_in(c, es[j], p, start, end, read_ts, vid),
        read_key(c, es[j].0) == Ok::<Seq<u8>, ErrorView>(key),
        key.len() > p + 4,
    ensures
        range_scan(es, c, p, start, end, read_ts) matches Ok(found) ==> found.contains(vid),
    decreases es.len(),
{
    if j < es.len() - 1 {
        assert(es.drop_last()[j] == es[j]);
        lemma_range_scan_contains(es.drop_last(), c, p, start, end, read_ts, j, key, vid);
        if let Ok(found) = range_scan(es, c, p, start, end, read_ts) {
            let f0 = range_scan(es.drop_last(), c, p, start, end, read_ts)->Ok_0;
            let k = choose|k: int| 0 <= k < f0.len() && f0[k] == vid;
            if found != f0 {
                assert(found[k] == vid);
            }
        }
    } else {
        if let Ok(found) = range_scan(es, c, p, start, end, read_ts) {
            assert(found[found.len() - 1] == vid);
        }
    }
}

/// Range lookups see what was written: in an uncompressed index, a range lookup of
/// `[start, end)` at `read_ts` that completes finds every vertex whose forward entry
/// under a value in `[start, end)` is visible at `read_ts` and lies among the keys
/// the lookup covers, from that of (`start`, `low_id`) to that of (`end`, `high_id`).
pub proof fn lemma_range_lookup_sees_visible_entry(
    v: VertexIndexView,
    space_id: u64,
    name: Seq<char>,
    start: Seq<u8>,
    end: Seq<u8>,
    low_id: Seq<u8>,
    high_id: Seq<u8>,
    value: Seq<u8>,
    vid: Seq<u8>,
    read_ts: Timestamp,
)
    requires
        v.compressor is None,
        encode_utf8(name).len() <= u32::MAX,
        value.len() <= u32::MAX,
        vid.len() <= u32::MAX,
        vertex_index_key_spec(space_id, encode_utf8(name), value, vid).len() <= isize::MAX,
        find(v.forward, vertex_index_key_spec(space_id, encode_utf8(name), value, vid)) matches Some(e)
            && visible_at(e, read_ts),
        in_range(value, start, end),
        in_range(
            vertex_index_key_spec(space_id, encode_utf8(name), value, vid),
            vertex_index_key_spec(space_id, encode_utf8(name), start, low_id),
            vertex_index_key_spec(space_id, encode_utf8(name), end, high_id),
        ),
    ensures
        ({
            let nb = encode_utf8(name);
            let lo = vertex_index_key_spec(space_id, nb, start, low_id);
            let hi = vertex_index_key_spec(space_id, nb, end, high_id);
            let p = index_prefix_spec(space_id, KEY_TYPE_VERTEX_FORWARD, nb).len() as int;
            range_scan(range_of(v.forward, lo, hi), v.compressor, p, start, end, read_ts) matches Ok(found)
                ==> found.contains(vid)
        }),
{
    let nb = encode_utf8(name);
    let lo = vertex_index_key_spec(space_id, nb, start, low_id);
    let hi = vertex_index_key_spec(space_id, nb, end, high_id);
    let prefix = index_prefix_spec(space_id, KEY_TYPE_VERTEX_FORWARD, nb);
    let p = prefix.len() as int;
    let key = vertex_index_key_spec(space_id, nb, value, vid);
    let e = find(v.forward, key)->Some_0;
    crate::entry_map::lemma_find_some(v.forward, key);
    let i = choose|i: int| 0 <= i < v.forward.len() && v.forward[i] == (key, e);
    assert(v.forward.contains(v.forward[i]));
    crate::entry_map::lemma_range_of_members(v.forward, lo, hi);
    let es = range_of(v.forward, lo, hi);
    assert(es.contains((key, e)));
    let j = choose|j: int| 0 <= j < es.len() && es[j] == (key, e);
    vstd::bytes::lemma_auto_spec_u64_to_from_le_bytes();
    crate::key_codec::lemma_vertex_index_key_roundtrip(space_id, nb, value, vid);
    crate::bytes::lemma_framed_parts(prefix, value, framed(vid));
    assert(key =~= prefix + framed(value) + framed(vid));
    assert(holds_value_in(None, es[j], p, start, end, read_ts, vid));
    lemma_range_scan_contains(es, None, p, start, end, read_ts, j, key, vid);
}

/// A native range scan finds the id of every visible entry whose key holds a value
/// in the range.
proof fn lemma_native_range_scan_contains(
    es: EntryList,
    p: int,
    start: Seq<u8>,
    end: Seq<u8>,
    read_ts: Timestamp,
    j: int,
    vid: u64,
)
    requires
        0 <= j < es.len(),
        native_holds_value_in(es[j], p, start, end, read_ts, vid),
        es[j].0.len() > p + 4,
    ensures
        native_range_scan(es, p, start, end, read_ts).contains(vid),
    decreases es.len(),
{
    let found = native_range_scan(es, p, start, end, read_ts);
    if j < es.len() - 1 {
        assert(es.drop_last()[j] == es[j]);
        lemma_native_range_scan_contains(es.drop_last(), p, start, end, read_ts, j, vid);
        let f0 = native_range_scan(es.drop_last(), p, start, end, read_ts);
        let k = choose|k: int| 0 <= k < f0.len() && f0[k] == vid;
        if found != f0 {
            assert(found[k] == vid);
        }
    } else {
        assert(found[found.len() - 1] == vid);
    }
}

/// Native range lookups see what was written: a native range lookup of `[start,
/// end)` at `read_ts` finds every vertex whose forward entry under a value in
/// `[start, end)` is visible at `read_ts` and lies among the keys the lookup covers,
/// from that of (`start`, 0) to that of (`end`, `u64::MAX`).
pub proof fn lemma_native_range_lookup_sees_visible_entry(
    v: VertexIndexView,
    space_id: u64,
    name: Seq<char>,
    start: Seq<u8>,
    end: Seq<u8>,
    value: Seq<u8>,
    vid: u64,
    read_ts: Timestamp,
)
    requires
        encode_utf8(name).len() <= u32::MAX,
        value.len() <= u32::MAX,
        vertex_index_key_native_spec(space_id, encode_utf8(name), value, vid).len() <= isize::MAX,
        find(v.forward, vertex_index_key_native_spec(space_id, encode_utf8(name), value, vid)) matches Some(e)
            && visible_at(e, read_ts),
        in_range(value, start, end),
        in_range(
            vertex_index_key_native_spec(space_id, encode_utf8(name), value, vid),
            vertex_index_key_native_spec(space_id, encode_utf8(name), start, 0),
            vertex_index_key_native_spec(space_id, encode_utf8(name), end, u64::MAX),
        ),
    ensures
        ({
            let nb = encode_utf8(name);
            let lo = vertex_index_key_native_spec(space_id, nb, start, 0);
            let hi = vertex_index_key_native_spec(space_id, nb, end, u64::MAX);
            let p = index_prefix_spec(space_id, KEY_TYPE_VERTEX_FORWARD, nb).len() as int;
            native_range_scan(range_of(v.forward, lo, hi), p, start, end, read_ts).contains(vid)
        }),
{
    let nb = encode_utf8(name);
    let lo = vertex_index_key_native_spec(space_id, nb, start, 0);
    let hi = vertex_index_key_native_spec(space_id, nb, end, u64::MAX);
    let prefix = index_prefix_spec(space_id, KEY_TYPE_VERTEX_FORWARD, nb);
    let p = prefix.len() as int;
    let key = vertex_index_key_native_spec(space_id, nb, value, vid);
    let e = find(v.forward, key)->Some_0;
    crate::entry_map::lemma_find_some(v.forward, key);
    let i = choose|i: int| 0 <= i < v.forward.len() && v.forward[i] == (key, e);
    assert(v.forward.contains(v.forward[i]));
    crate::entry_map::lemma_range_of_members(v.forward, lo, hi);
    let es = range_of(v.forward, lo, hi);
    assert(es.contains((key, e)));
    let j = choose|j: int| 0 <= j < es.len() && es[j] == (key, e);
    vstd::bytes::lemma_auto_spec_u64_to_from_le_bytes();
    let tail = vstd::bytes::spec_u64_to_le_bytes(vid);
    crate::key_builder::lemma_vertex_index_key_native_roundtrip(space_id, nb, value, vid);
    crate::bytes::lemma_framed_parts(prefix, value, tail);
    assert(key =~= prefix + framed(value) + tail);
    assert(native_holds_value_in(es[j], p, start, end, read_ts, vid));
    lemma_native_range_scan_contains(es, p, start, end, read_ts, j, vid);
}

} // verus!
