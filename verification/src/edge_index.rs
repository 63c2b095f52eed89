//! The edge property index: a forward map from (index, property value, source,
//! destination) keys to the property's name, and a reverse map from (index, source)
//! keys to the property's name and value length, written as text `name:len`.
//! Property values and vertex ids arrive already serialized.
use vstd::prelude::*;
use vstd::string::StringSliceAdditionalSpecFns;
use vstd::utf8::*;
use crate::byte_map::{ByteMap, ByteList, byte_list_view};
use crate::bytes::{u32_at, read_u32_le, copy_range, bytes_to_vec, framed};
use crate::entry_map::{find, range_of};
use crate::error::StorageError;
use crate::key_codec::{
    IndexKeyCodec, edge_index_key_spec, edge_reverse_key_spec, index_prefix_spec, range_end_spec, key_head,
    KEY_TYPE_EDGE_FORWARD, KEY_TYPE_EDGE_REVERSE,
};
use crate::key_parser::{parse_edge_reverse_spec, ParseFailure};
use crate::model::Index;

verus! {

/// The decimal digits of `n`, as ASCII, without leading zeros.
pub open spec fn decimal(n: nat) -> Seq<u8>
    decreases n,
{
    if n < 10 {
        seq![(48 + n) as u8]
    } else {
        decimal(n / 10).push((48 + n % 10) as u8)
    }
}

/// The reverse value written for a property: its name, `:`, and its value's length.
pub open spec fn reverse_value(name: Seq<u8>, len: nat) -> Seq<u8> {
    name + seq![58u8] + decimal(len)
}

/// The value of a string of ASCII digits.
pub open spec fn digits_value(d: Seq<u8>) -> nat
    decreases d.len(),
{
    if d.len() == 0 {
        0
    } else {
        digits_value(d.drop_last()) * 10 + (d.last() - 48) as nat
    }
}

/// Every byte is an ASCII digit.
pub open spec fn all_digits(d: Seq<u8>) -> bool {
    forall|i: int| 0 <= i < d.len() ==> 48 <= #[trigger] d[i] <= 57
}

/// The position of the first `:` in `v` at or after `from`, if any.
pub open spec fn colon_from(v: Seq<u8>, from: int) -> Option<int>
    decreases v.len() - from,
{
    if from < 0 || from >= v.len() {
        None
    } else if v[from] == 58 {
        Some(from)
    } else {
        colon_from(v, from + 1)
    }
}

/// Reading an unsigned number in decimal: an optional `+`, then one or more digits,
/// no larger than `usize::MAX`.
pub open spec fn parse_usize_spec(s: Seq<u8>) -> Option<nat> {
    let d = if s.len() > 0 && s[0] == 43 {
        s.drop_first()
    } else {
        s
    };
    if d.len() > 0 && all_digits(d) && digits_value(d) <= usize::MAX {
        Some(digits_value(d))
    } else {
        None
    }
}

/// The value length held by a reverse value: the text between its first `:` and the
/// next one (or its end), read as a number. `None` without a `:` or a number there.
pub open spec fn value_len_of(v: Seq<u8>) -> Option<nat> {
    match colon_from(v, 0) {
        None => None,
        Some(i) => {
            let end = match colon_from(v, i + 1) {
                Some(j) => j,
                None => v.len() as int,
            };
            parse_usize_spec(v.subrange(i + 1, end))
        },
    }
}

/// What an edge index holds: its forward and reverse entries.
pub struct EdgeIndexView {
    pub forward: ByteList,
    pub reverse: ByteList,
}

/// An index from edge property values to edges.
#[derive(Debug)]
pub struct EdgeIndexManager {
    forward_index: ByteMap,
    reverse_index: ByteMap,
}

impl View for EdgeIndexManager {
    type V = EdgeIndexView;

    closed spec fn view(&self) -> EdgeIndexView {
        EdgeIndexView { forward: self.forward_index@, reverse: self.reverse_index@ }
    }
}

/// The forward writes of `props` for the edge `(src, dst)`: each value's key, with the
/// property's name.
pub open spec fn edge_forward_writes(
    space_id: u64,
    name: Seq<u8>,
    props: Seq<(String, Vec<u8>)>,
    src: Seq<u8>,
    dst: Seq<u8>,
) -> ByteList {
    props.map_values(
        |p: (String, Vec<u8>)| (edge_index_key_spec(space_id, name, p.1@, src, dst), encode_utf8(p.0@)),
    )
}

/// The reverse writes of `props` for the source `src`: one key, written once per
/// property with its name and value length.
pub open spec fn edge_reverse_writes(space_id: u64, name: Seq<u8>, props: Seq<(String, Vec<u8>)>, src: Seq<u8>) -> ByteList {
    props.map_values(
        |p: (String, Vec<u8>)| (edge_reverse_key_spec(space_id, name, src), reverse_value(encode_utf8(p.0@), p.1@.len())),
    )
}

/// `new` holds what `old` held, overwritten by the writes `ws` in order.
pub open spec fn written(new: ByteList, old: ByteList, ws: ByteList) -> bool {
    forall|k: Seq<u8>| #[trigger]
        find(new, k) == match find(ws, k) {
            Some(v) => Some(v),
            None => find(old, k),
        }
}

/// `new` is `old` without the entries under `keys`.
pub open spec fn removed_keys(new: ByteList, old: ByteList, keys: Seq<Seq<u8>>) -> bool {
    forall|k: Seq<u8>| #[trigger] find(new, k) == if keys.contains(k) {
        None
    } else {
        find(old, k)
    }
}

/// The ASCII digits of `n`, appended to `out`.
pub(crate) fn append_decimal(out: &mut Vec<u8>, n: usize)
    ensures
        final(out)@ == old(out)@ + decimal(n as nat),
    decreases n,
{
    if n >= 10 {
        append_decimal(out, n / 10);
    }
    let d = (48 + n % 10) as u8;
    let ghost before = out@;
    out.push(d);
    proof {
        if n >= 10 {
            assert(out@ =~= old(out)@ + decimal((n / 10) as nat).push(d));
        } else {
            assert(out@ =~= old(out)@ + seq![d]);
        }
    }
}

impl EdgeIndexManager {
    /// An empty index.
    pub fn new() -> (r: Self)
        ensures
            r@.forward.len() == 0,
            r@.reverse.len() == 0,
    {
        EdgeIndexManager { forward_index: ByteMap::new(), reverse_index: ByteMap::new() }
    }

    /// The numbers of forward and reverse entries.
    pub fn entry_count(&self) -> (r: (usize, usize))
        ensures
            r.0 == self@.forward.len(),
            r.1 == self@.reverse.len(),
    {
        (self.forward_index.len(), self.reverse_index.len())
    }

    /// Writes `value` under every listed key of `map`, in order.
    pub(crate) fn write_all(map: &mut ByteMap, ws: &Vec<(Vec<u8>, Vec<u8>)>)
        ensures
            written(final(map)@, old(map)@, byte_list_view(ws@)),
    {
        let ghost w = byte_list_view(ws@);
        let ghost start = map@;
        let mut i: usize = 0;
        while i < ws.len()
            invariant
                i <= ws@.len(),
                w == byte_list_view(ws@),
                written(map@, start, w.subrange(0, i as int)),
            decreases ws@.len() - i,
        {
            let ghost before = map@;
            map.insert(bytes_to_vec(ws[i].0.as_slice()), bytes_to_vec(ws[i].1.as_slice()));
            proof {
                let sub = w.subrange(0, i as int + 1);
                assert(sub.drop_last() =~= w.subrange(0, i as int));
                assert(sub.last() == (ws@[i as int].0@, ws@[i as int].1@));
            }
            i = i + 1;
        }
        assert(w.subrange(0, i as int) =~= w);
    }

    /// Removes every listed key of `map`.
    pub(crate) fn remove_all(map: &mut ByteMap, keys: &Vec<Vec<u8>>)
        ensures
            removed_keys(final(map)@, old(map)@, keys@.map_values(|x: Vec<u8>| x@)),
    {
        let ghost ks = keys@.map_values(|x: Vec<u8>| x@);
        let ghost start = map@;
        let mut i: usize = 0;
        while i < keys.len()
            invariant
                i <= keys@.len(),
                ks == keys@.map_values(|x: Vec<u8>| x@),
                removed_keys(map@, start, ks.subrange(0, i as int)),
            decreases keys@.len() - i,
        {
            let ghost before = map@;
            map.remove(keys[i].as_slice());
            proof {
                let ki = ks[i as int];
                assert(keys@[i as int]@ == ki);
                assert forall|k: Seq<u8>| #[trigger]
                    find(map@, k) == if ks.subrange(0, i as int + 1).contains(k) {
                        None
                    } else {
                        find(start, k)
                    } by {
                    assert(find(before, k) == if ks.subrange(0, i as int).contains(k) {
                        None
                    } else {
                        find(start, k)
                    });
                    if k == ki {
                        assert(ks.subrange(0, i as int + 1)[i as int] == k);
                    } else {
                        if ks.subrange(0, i as int + 1).contains(k) {
                            let j = choose|j: int| 0 <= j < i + 1 && #[trigger] ks.subrange(0, i as int + 1)[j] == k;
                            assert(ks.subrange(0, i as int)[j] == k);
                        }
                        if ks.subrange(0, i as int).contains(k) {
                            let j = choose|j: int| 0 <= j < i && #[trigger] ks.subrange(0, i as int)[j] == k;
                            assert(ks.subrange(0, i as int + 1)[j] == k);
                        }
                    }
                }
            }
            i = i + 1;
        }
        assert(ks.subrange(0, i as int) =~= ks);
    }

    /// Writes the entries of an edge under `index_name`: for each property in order,
    /// the forward key of its value maps to the property's name, and the reverse key
    /// of the index and source maps to `name:len`, the value's length in decimal.
    pub fn update_edge_indexes(
        &mut self,
        space_id: u64,
        src: &[u8],
        dst: &[u8],
        index_name: &str,
        props: &[(String, Vec<u8>)],
    ) -> (r: Result<(), StorageError>)
        ensures
            r is Ok,
            written(
                final(self)@.forward,
                old(self)@.forward,
                edge_forward_writes(space_id, index_name.spec_bytes(), props@, src@, dst@),
            ),
            written(
                final(self)@.reverse,
                old(self)@.reverse,
                edge_reverse_writes(space_id, index_name.spec_bytes(), props@, src@),
            ),
    {
        let ghost fw = edge_forward_writes(space_id, index_name.spec_bytes(), props@, src@, dst@);
        let ghost rw = edge_reverse_writes(space_id, index_name.spec_bytes(), props@, src@);
        let mut fws: Vec<(Vec<u8>, Vec<u8>)> = Vec::new();
        let mut rws: Vec<(Vec<u8>, Vec<u8>)> = Vec::new();
        let mut i: usize = 0;
        assert(byte_list_view(fws@) =~= fw.subrange(0, 0));
        assert(byte_list_view(rws@) =~= rw.subrange(0, 0));
        while i < props.len()
            invariant
                i <= props@.len(),
                fw == edge_forward_writes(space_id, index_name.spec_bytes(), props@, src@, dst@),
                rw == edge_reverse_writes(space_id, index_name.spec_bytes(), props@, src@),
                byte_list_view(fws@) == fw.subrange(0, i as int),
                byte_list_view(rws@) == rw.subrange(0, i as int),
            decreases props@.len() - i,
        {
            let name = &props[i].0;
            let value = &props[i].1;
            let fkey = IndexKeyCodec::build_edge_index_key(space_id, index_name, value.as_slice(), src, dst);
            let rkey = IndexKeyCodec::build_edge_reverse_key(space_id, index_name, src);
            let nb = bytes_to_vec(name.as_str().as_bytes());
            let mut rv = bytes_to_vec(name.as_str().as_bytes());
            rv.push(58u8);
            append_decimal(&mut rv, value.len());
            let ghost fe = (fkey@, nb@);
            let ghost re = (rkey@, rv@);
            proof {
                assert(fe == fw[i as int]);
                assert(rv@ =~= reverse_value(encode_utf8(name@), value@.len()));
                assert(re == rw[i as int]);
            }
            let ghost fb = byte_list_view(fws@);
            let ghost rb = byte_list_view(rws@);
            fws.push((fkey.0, nb));
            rws.push((rkey.0, rv));
            assert(byte_list_view(fws@) =~= fb.push(fe));
            assert(byte_list_view(rws@) =~= rb.push(re));
            assert(fw.subrange(0, i as int + 1) =~= fw.subrange(0, i as int).push(fe));
            assert(rw.subrange(0, i as int + 1) =~= rw.subrange(0, i as int).push(re));
            i = i + 1;
        }
        assert(fw.subrange(0, i as int) =~= fw);
        assert(rw.subrange(0, i as int) =~= rw);
        Self::write_all(&mut self.forward_index, &fws);
        Self::write_all(&mut self.reverse_index, &rws);
        Ok(())
    }

    /// Removes every forward entry of the index `index_name`.
    pub fn clear_edge_index(&mut self, space_id: u64, index_name: &str) -> (r: Result<(), StorageError>)
        ensures
            r is Ok,
            final(self)@.reverse == old(self)@.reverse,
            ({
                let pre = index_prefix_spec(space_id, KEY_TYPE_EDGE_FORWARD, index_name.spec_bytes());
                removed_keys(
                    final(self)@.forward,
                    old(self)@.forward,
                    range_of(old(self)@.forward, pre, range_end_spec(pre)).map_values(|e: (Seq<u8>, Seq<u8>)| e.0),
                )
            }),
    {
        let pre = IndexKeyCodec::build_edge_index_prefix(space_id, index_name);
        let end = IndexKeyCodec::build_range_end(&pre);
        let entries = self.forward_index.range(pre.as_ref(), end.as_ref());
        let ghost es = byte_list_view(entries@);
        let mut keys: Vec<Vec<u8>> = Vec::new();
        let mut i: usize = 0;
        while i < entries.len()
            invariant
                i <= entries@.len(),
                es == byte_list_view(entries@),
                es.len() == entries@.len(),
                keys@.map_values(|x: Vec<u8>| x@) == es.subrange(0, i as int).map_values(|e: (Seq<u8>, Seq<u8>)| e.0),
            decreases entries@.len() - i,
        {
            let ghost before = keys@.map_values(|x: Vec<u8>| x@);
            keys.push(bytes_to_vec(entries[i].0.as_slice()));
            assert(keys@.map_values(|x: Vec<u8>| x@) =~= before.push(entries@[i as int].0@));
            assert(es.subrange(0, i as int + 1).map_values(|e: (Seq<u8>, Seq<u8>)| e.0) =~= es.subrange(
                0,
                i as int,
            ).map_values(|e: (Seq<u8>, Seq<u8>)| e.0).push(es[i as int].0));
            i = i + 1;
        }
        assert(es.subrange(0, i as int) =~= es);
        Self::remove_all(&mut self.forward_index, &keys);
        Ok(())
    }
}

/// Reading the index name and source of a reverse key; keys longer than a slice can
/// be are not keys.
pub open spec fn edge_rev_of(key: Seq<u8>) -> Result<(Seq<char>, Seq<u8>), ParseFailure> {
    if key.len() <= isize::MAX {
        parse_edge_reverse_spec(key)
    } else {
        Err(ParseFailure::BadName)
    }
}

/// Whether one of `names` is `n`.
pub open spec fn names_contain(names: Seq<String>, n: Seq<char>) -> bool {
    exists|j: int| 0 <= j < names.len() && #[trigger] names[j]@ == n
}

/// Whether a forward key holds, after the index prefix of length `p` and a value of
/// length `plen`, the source `src` and the destination `dst`, each read through its
/// length field. Positions are compared without wrapping.
pub open spec fn edge_key_matches(key: Seq<u8>, p: int, plen: int, src: Seq<u8>, dst: Seq<u8>) -> bool {
    let s0 = p + 4 + plen + 4;
    &&& key.len() >= s0 + 4
    &&& key.len() >= s0 + u32_at(key, s0 - 4) + 4
    &&& key.len() >= s0 + u32_at(key, s0 - 4) + 4 + u32_at(key, s0 + u32_at(key, s0 - 4))
    &&& key.subrange(s0, s0 + u32_at(key, s0 - 4)) == src
    &&& key.subrange(
        s0 + u32_at(key, s0 - 4) + 4,
        s0 + u32_at(key, s0 - 4) + 4 + u32_at(key, s0 + u32_at(key, s0 - 4)),
    ) == dst
}

/// The keys of the forward entries `es` that hold `src` and `dst` after a value of
/// length `plen`, in order.
pub open spec fn edge_forward_matches(es: ByteList, p: int, plen: int, src: Seq<u8>, dst: Seq<u8>) -> Seq<Seq<u8>>
    decreases es.len(),
{
    if es.len() == 0 {
        Seq::empty()
    } else {
        let f = edge_forward_matches(es.drop_last(), p, plen, src, dst);
        if edge_key_matches(es.last().0, p, plen, src, dst) {
            f.push(es.last().0)
        } else {
            f
        }
    }
}

/// Whether a reverse entry names one of `names` for the source `src` in the space.
pub open spec fn reverse_selected(k: Seq<u8>, space_id: u64, src: Seq<u8>, names: Seq<String>) -> bool {
    &&& k.len() >= 9
    &&& k.subrange(0, 9) == key_head(space_id, KEY_TYPE_EDGE_REVERSE)
    &&& edge_rev_of(k) matches Ok((name, ks)) && ks == src && names_contain(names, name)
}

/// The reverse and forward keys that deleting the edge `(src, dst)` from the indexes
/// `names` removes, from the reverse entries `es`: each selected reverse entry and,
/// when its value holds a value length, the forward keys of its index that hold
/// `src` and `dst` after a value of that length.
pub open spec fn edge_delete_plan(
    v: EdgeIndexView,
    es: ByteList,
    space_id: u64,
    src: Seq<u8>,
    dst: Seq<u8>,
    names: Seq<String>,
) -> (Seq<Seq<u8>>, Seq<Seq<u8>>)
    decreases es.len(),
{
    if es.len() == 0 {
        (Seq::empty(), Seq::empty())
    } else {
        let (rk, fk) = edge_delete_plan(v, es.drop_last(), space_id, src, dst, names);
        let (k, val) = es.last();
        if reverse_selected(k, space_id, src, names) {
            let name = edge_rev_of(k)->Ok_0.0;
            match value_len_of(val) {
                Some(plen) => {
                    let pre = index_prefix_spec(space_id, KEY_TYPE_EDGE_FORWARD, encode_utf8(name));
                    (
                        rk.push(k),
                        fk + edge_forward_matches(
                            range_of(v.forward, pre, range_end_spec(pre)),
                            pre.len() as int,
                            plen as int,
                            src,
                            dst,
                        ),
                    )
                },
                None => (rk.push(k), fk),
            }
        } else {
            (rk, fk)
        }
    }
}

/// The sources that a lookup of `value` finds among the forward entries `es` (the
/// range of one index): keys that hold, right after the index prefix of length `p`,
/// the value and then a source. `None` where the value's length field points past
/// the end of the key, so that the value cannot be read.
pub open spec fn edge_lookup_scan(es: ByteList, p: int, value: Seq<u8>) -> Option<Seq<Seq<u8>>>
    decreases es.len(),
{
    if es.len() == 0 {
        Some(Seq::empty())
    } else {
        match edge_lookup_scan(es.drop_last(), p, value) {
            None => None,
            Some(found) => {
                let key = es.last().0;
                if key.len() > p + 4 && u32_at(key, p) == value.len() {
                    let sls = p + 4 + value.len();
                    if sls > key.len() {
                        None
                    } else if key.subrange(p + 4, sls) == value && key.len() >= sls + 4 && key.len() >= sls + 4
                        + u32_at(key, sls) {
                        Some(found.push(key.subrange(sls + 4, sls + 4 + u32_at(key, sls))))
                    } else {
                        Some(found)
                    }
                } else {
                    Some(found)
                }
            },
        }
    }
}

/// A lookup of `value` in the edge index named `name`.
pub open spec fn edge_lookup_spec(v: EdgeIndexView, space_id: u64, name: Seq<char>, value: Seq<u8>) -> Option<
    Seq<Seq<u8>>,
> {
    let pre = index_prefix_spec(space_id, KEY_TYPE_EDGE_FORWARD, encode_utf8(name));
    edge_lookup_scan(range_of(v.forward, pre, range_end_spec(pre)), pre.len() as int, value)
}

proof fn lemma_edge_scan_stops(es: ByteList, n: int, p: int, value: Seq<u8>)
    requires
        0 <= n <= es.len(),
        edge_lookup_scan(es.subrange(0, n), p, value) is None,
    ensures
        edge_lookup_scan(es, p, value) is None,
    decreases es.len() - n,
{
    if n < es.len() {
        let t = es.subrange(0, n + 1);
        assert(t.drop_last() =~= es.subrange(0, n));
        lemma_edge_scan_stops(es, n + 1, p, value);
    } else {
        assert(es.subrange(0, n) =~= es);
    }
}

proof fn lemma_colon_skip(v: Seq<u8>, a: int, b: int)
    requires
        0 <= a <= b <= v.len(),
        forall|t: int| a <= t < b ==> v[t] != 58,
    ensures
        colon_from(v, a) == colon_from(v, b),
    decreases b - a,
{
    if a < b {
        lemma_colon_skip(v, a + 1, b);
    }
}

proof fn lemma_digits_prefix(d: Seq<u8>, t: int)
    requires
        all_digits(d),
        0 <= t <= d.len(),
    ensures
        digits_value(d.subrange(0, t)) <= digits_value(d),
    decreases d.len(),
{
    if t < d.len() {
        assert(all_digits(d.drop_last())) by {
            assert forall|i: int| 0 <= i < d.drop_last().len() implies 48 <= #[trigger] d.drop_last()[i] <= 57 by {
                assert(d.drop_last()[i] == d[i]);
            }
        }
        lemma_digits_prefix(d.drop_last(), t);
        assert(d.drop_last().subrange(0, t) =~= d.subrange(0, t));
        assert(d.last() >= 48);
    } else {
        assert(d.subrange(0, t) =~= d);
    }
}

/// The number written in decimal in `s`, with an optional `+`; `None` without one.
fn parse_usize(s: &[u8]) -> (r: Option<usize>)
    ensures
        match parse_usize_spec(s@) {
            Some(n) => r == Some(n as usize),
            None => r is None,
        },
{
    let start: usize = if s.len() > 0 && s[0] == 43 {
        1
    } else {
        0
    };
    let ghost d = if s@.len() > 0 && s@[0] == 43 {
        s@.drop_first()
    } else {
        s@
    };
    assert(d =~= s@.subrange(start as int, s@.len() as int));
    if start >= s.len() {
        return None;
    }
    let mut acc: u128 = 0;
    let mut i: usize = start;
    while i < s.len()
        invariant
            start <= i <= s@.len(),
            start < s@.len(),
            d == s@.subrange(start as int, s@.len() as int),
            d == (if s@.len() > 0 && s@[0] == 43 {
                s@.drop_first()
            } else {
                s@
            }),
            acc == digits_value(d.subrange(0, i - start)),
            acc <= usize::MAX,
            all_digits(d.subrange(0, i - start)),
        decreases s@.len() - i,
    {
        let c = s[i];
        let ghost sub = d.subrange(0, i - start + 1);
        assert(sub.drop_last() =~= d.subrange(0, i - start));
        assert(sub.last() == c);
        if c < 48 || c > 57 {
            assert(!(48 <= d[i - start] <= 57));
            assert(!all_digits(d));
            return None;
        }
        let next = acc * 10 + (c - 48) as u128;
        if next > usize::MAX as u128 {
            proof {
                assert(all_digits(sub)) by {
                    assert forall|t: int| 0 <= t < sub.len() implies 48 <= #[trigger] sub[t] <= 57 by {
                        if t < sub.len() - 1 {
                            assert(sub[t] == d.subrange(0, i - start)[t]);
                        }
                    }
                }
                assert(digits_value(sub) == acc * 10 + (c - 48));
                if all_digits(d) {
                    lemma_digits_prefix(d, i - start + 1);
                    assert(digits_value(d) > usize::MAX);
                }
            }
            return None;
        }
        acc = next;
        i = i + 1;
        proof {
            assert forall|t: int| 0 <= t < d.subrange(0, i - start).len() implies 48 <= #[trigger] d.subrange(
                0,
                i - start,
            )[t] <= 57 by {
                if t < i - start - 1 {
                    assert(d.subrange(0, i - start)[t] == d.subrange(0, i - start - 1)[t]);
                }
            }
        }
    }
    assert(d.subrange(0, i - start) =~= d);
    Some(acc as usize)
}

/// The value length that a reverse value holds; see `value_len_of`.
pub(crate) fn value_len(v: &[u8]) -> (r: Option<usize>)
    ensures
        match value_len_of(v@) {
            Some(n) => r == Some(n as usize),
            None => r is None,
        },
{
    let mut i: usize = 0;
    while i < v.len() && v[i] != 58
        invariant
            i <= v@.len(),
            forall|t: int| 0 <= t < i ==> v@[t] != 58,
        decreases v@.len() - i,
    {
        i = i + 1;
    }
    proof {
        lemma_colon_skip(v@, 0, i as int);
    }
    if i >= v.len() {
        return None;
    }
    let mut j: usize = i + 1;
    while j < v.len() && v[j] != 58
        invariant
            i < j <= v@.len(),
            forall|t: int| i + 1 <= t < j ==> v@[t] != 58,
        decreases v@.len() - j,
    {
        j = j + 1;
    }
    proof {
        lemma_colon_skip(v@, i + 1, j as int);
    }
    parse_usize(vstd::slice::slice_subrange(v, i + 1, j))
}

impl EdgeIndexManager {
    fn parse_rev(key: &[u8]) -> (r: Option<(String, Vec<u8>)>)
        ensures
            match edge_rev_of(key@) {
                Ok((n, s)) => r matches Some(x) && x.0@ == n && x.1@ == s,
                Err(_) => r is None,
            },
    {
        if key.len() > isize::MAX as usize {
            return None;
        }
        match IndexKeyCodec::parse_edge_reverse_key(key) {
            Ok(x) => Some(x),
            Err(_) => None,
        }
    }

    fn names_have(names: &[String], n: &String) -> (r: bool)
        ensures
            r == names_contain(names@, n@),
    {
        let mut j: usize = 0;
        while j < names.len()
            invariant
                j <= names@.len(),
                forall|t: int| 0 <= t < j ==> #[trigger] names@[t]@ != n@,
            decreases names@.len() - j,
        {
            if crate::index_updater::str_eq(names[j].as_str(), n.as_str()) {
                return true;
            }
            j = j + 1;
        }
        false
    }

    fn key_matches(key: &[u8], p: usize, plen: usize, src: &[u8], dst: &[u8]) -> (r: bool)
        ensures
            r == edge_key_matches(key@, p as int, plen as int, src@, dst@),
    {
        let n = key.len();
        if p > n || plen > n - p || n - p - plen < 12 {
            return false;
        }
        let s0 = p + 4 + plen + 4;
        let sl = read_u32_le(key, s0 - 4) as usize;
        if sl > n - s0 - 4 {
            return false;
        }
        let dl_at = s0 + sl;
        let dl = read_u32_le(key, dl_at) as usize;
        if dl > n - dl_at - 4 {
            return false;
        }
        let ds = dl_at + 4;
        crate::compression::bytes_eq(vstd::slice::slice_subrange(key, s0, s0 + sl), src)
            && crate::compression::bytes_eq(vstd::slice::slice_subrange(key, ds, ds + dl), dst)
    }

    fn forward_matches_in(&self, lo: &[u8], hi: &[u8], plen: usize, src: &[u8], dst: &[u8]) -> (r: Vec<Vec<u8>>)
        ensures
            r@.map_values(|x: Vec<u8>| x@) == edge_forward_matches(
                range_of(self@.forward, lo@, hi@),
                lo@.len() as int,
                plen as int,
                src@,
                dst@,
            ),
    {
        let entries = self.forward_index.range(lo, hi);
        let ghost es = byte_list_view(entries@);
        let mut out: Vec<Vec<u8>> = Vec::new();
        let mut i: usize = 0;
        assert(es.subrange(0, 0) =~= Seq::<(Seq<u8>, Seq<u8>)>::empty());
        assert(out@.map_values(|x: Vec<u8>| x@) =~= Seq::<Seq<u8>>::empty());
        while i < entries.len()
            invariant
                i <= entries@.len(),
                es == byte_list_view(entries@),
                es == range_of(self@.forward, lo@, hi@),
                es.len() == entries@.len(),
                out@.map_values(|x: Vec<u8>| x@) == edge_forward_matches(
                    es.subrange(0, i as int),
                    lo@.len() as int,
                    plen as int,
                    src@,
                    dst@,
                ),
            decreases entries@.len() - i,
        {
            let ghost sub = es.subrange(0, i as int + 1);
            assert(sub.drop_last() =~= es.subrange(0, i as int));
            assert(sub.last() == (entries@[i as int].0@, entries@[i as int].1@));
            let ghost before = out@.map_values(|x: Vec<u8>| x@);
            if Self::key_matches(entries[i].0.as_slice(), lo.len(), plen, src, dst) {
                out.push(bytes_to_vec(entries[i].0.as_slice()));
                assert(out@.map_values(|x: Vec<u8>| x@) =~= before.push(entries@[i as int].0@));
            }
            i = i + 1;
        }
        assert(es.subrange(0, i as int) =~= es);
        out
    }

    pub(crate) fn append_keys(dst: &mut Vec<Vec<u8>>, src: Vec<Vec<u8>>)
        ensures
            final(dst)@.map_values(|x: Vec<u8>| x@) == old(dst)@.map_values(|x: Vec<u8>| x@) + src@.map_values(
                |x: Vec<u8>| x@,
            ),
    {
        let ghost base = dst@.map_values(|x: Vec<u8>| x@);
        let ghost sv = src@.map_values(|x: Vec<u8>| x@);
        let mut i: usize = 0;
        while i < src.len()
            invariant
                i <= src@.len(),
                sv == src@.map_values(|x: Vec<u8>| x@),
                dst@.map_values(|x: Vec<u8>| x@) == base + sv.subrange(0, i as int),
            decreases src@.len() - i,
        {
            let ghost before = dst@.map_values(|x: Vec<u8>| x@);
            dst.push(bytes_to_vec(src[i].as_slice()));
            assert(dst@.map_values(|x: Vec<u8>| x@) =~= before.push(sv[i as int]));
            assert(sv.subrange(0, i as int + 1) =~= sv.subrange(0, i as int).push(sv[i as int]));
            i = i + 1;
        }
        assert(sv.subrange(0, i as int) =~= sv);
    }

    /// Deletes the entries of the edge `(src, dst)` from the indexes `index_names`: the
    /// reverse entries of the space that name one of them for `src`, and for each, when
    /// its value holds a value length, the forward entries of its index that hold `src`
    /// and `dst` after a value of that length.
    pub fn delete_edge_indexes(
        &mut self,
        space_id: u64,
        src: &[u8],
        dst: &[u8],
        index_names: &[String],
    ) -> (r: Result<(), StorageError>)
        ensures
            r is Ok,
            ({
                let (rk, fk) = edge_delete_plan(old(self)@, old(self)@.reverse, space_id, src@, dst@, index_names@);
                &&& removed_keys(final(self)@.reverse, old(self)@.reverse, rk)
                &&& removed_keys(final(self)@.forward, old(self)@.forward, fk)
            }),
    {
        let rpre = IndexKeyCodec::build_edge_reverse_prefix(space_id);
        let entries = self.reverse_index.entries();
        let ghost es = byte_list_view(entries@);
        let ghost v = self@;
        let mut rkeys: Vec<Vec<u8>> = Vec::new();
        let mut fkeys: Vec<Vec<u8>> = Vec::new();
        let mut i: usize = 0;
        assert(es.subrange(0, 0) =~= Seq::<(Seq<u8>, Seq<u8>)>::empty());
        assert(rkeys@.map_values(|x: Vec<u8>| x@) =~= Seq::<Seq<u8>>::empty());
        assert(fkeys@.map_values(|x: Vec<u8>| x@) =~= Seq::<Seq<u8>>::empty());
        while i < entries.len()
            invariant
                i <= entries@.len(),
                es == byte_list_view(entries@),
                es == old(self)@.reverse,
                rpre@ == key_head(space_id, KEY_TYPE_EDGE_REVERSE),
                es.len() == entries@.len(),
                v == self@,
                v == old(self)@,
                edge_delete_plan(v, es.subrange(0, i as int), space_id, src@, dst@, index_names@) == (
                    rkeys@.map_values(|x: Vec<u8>| x@),
                    fkeys@.map_values(|x: Vec<u8>| x@),
                ),
            decreases entries@.len() - i,
        {
            let ghost sub = es.subrange(0, i as int + 1);
            assert(sub.drop_last() =~= es.subrange(0, i as int));
            assert(sub.last() == (entries@[i as int].0@, entries@[i as int].1@));
            proof {
                vstd::bytes::lemma_auto_spec_u64_to_from_le_bytes();
                assert(key_head(space_id, KEY_TYPE_EDGE_REVERSE).len() == 9);
            }
            let key = entries[i].0.as_slice();
            if crate::compression::starts_with(key, rpre.as_ref()) {
                match Self::parse_rev(key) {
                    Some((name, ks)) => {
                        if crate::compression::bytes_eq(ks.as_slice(), src) && Self::names_have(index_names, &name) {
                            let ghost rbefore = rkeys@.map_values(|x: Vec<u8>| x@);
                            rkeys.push(bytes_to_vec(key));
                            assert(rkeys@.map_values(|x: Vec<u8>| x@) =~= rbefore.push(key@));
                            match value_len(entries[i].1.as_slice()) {
                                Some(plen) => {
                                    let pre = IndexKeyCodec::build_edge_index_prefix(space_id, name.as_str());
                                    let end = IndexKeyCodec::build_range_end(&pre);
                                    let f = self.forward_matches_in(pre.as_ref(), end.as_ref(), plen, src, dst);
                                    Self::append_keys(&mut fkeys, f);
                                },
                                None => {},
                            }
                        }
                    },
                    None => {},
                }
            }
            i = i + 1;
        }
        assert(es.subrange(0, i as int) =~= es);
        Self::remove_all(&mut self.reverse_index, &rkeys);
        Self::remove_all(&mut self.forward_index, &fkeys);
        Ok(())
    }

    /// Looks up the sources of the edges indexed under `value` by `index`, in key
    /// order. `None` where a stored key's value length field points past its end.
    pub fn try_lookup_edge_index(&self, space_id: u64, index: &Index, value: &[u8]) -> (r: Option<Vec<Vec<u8>>>)
        ensures
            match (r, edge_lookup_spec(self@, space_id, index@.name, value@)) {
                (Some(v), Some(t)) => v@.map_values(|x: Vec<u8>| x@) == t,
                (None, None) => true,
                _ => false,
            },
    {
        let pre = IndexKeyCodec::build_edge_index_prefix(space_id, index.name.as_str());
        let end = IndexKeyCodec::build_range_end(&pre);
        let p = pre.0.len();
        let entries = self.forward_index.range(pre.as_ref(), end.as_ref());
        let ghost es = byte_list_view(entries@);
        let mut found: Vec<Vec<u8>> = Vec::new();
        let mut i: usize = 0;
        assert(es.subrange(0, 0) =~= Seq::<(Seq<u8>, Seq<u8>)>::empty());
        assert(found@.map_values(|x: Vec<u8>| x@) =~= Seq::<Seq<u8>>::empty());
        while i < entries.len()
            invariant
                i <= entries@.len(),
                es == byte_list_view(entries@),
                es == range_of(self@.forward, pre@, end@),
                pre@ == index_prefix_spec(space_id, KEY_TYPE_EDGE_FORWARD, encode_utf8(index@.name)),
                end@ == range_end_spec(pre@),
                p == pre@.len(),
                es.len() == entries@.len(),
                edge_lookup_scan(es.subrange(0, i as int), p as int, value@) == Some(found@.map_values(|x: Vec<u8>| x@)),
            decreases entries@.len() - i,
        {
            let ghost sub = es.subrange(0, i as int + 1);
            assert(sub.drop_last() =~= es.subrange(0, i as int));
            assert(sub.last() == (entries@[i as int].0@, entries@[i as int].1@));
            let ghost before = found@.map_values(|x: Vec<u8>| x@);
            let key = entries[i].0.as_slice();
            if key.len() > p && key.len() - p > 4 && read_u32_le(key, p) as u64 == value.len() as u64 {
                if value.len() > key.len() - p - 4 {
                    proof {
                        lemma_edge_scan_stops(es, i as int + 1, p as int, value@);
                    }
                    return None;
                }
                let sls = p + 4 + value.len();
                if crate::compression::bytes_eq(vstd::slice::slice_subrange(key, p + 4, sls), value) && key.len() - sls
                    >= 4 {
                    let sl = read_u32_le(key, sls) as usize;
                    if sl <= key.len() - sls - 4 {
                        let s = copy_range(key, sls + 4, sls + 4 + sl);
                        let ghost sv = s@;
                        found.push(s);
                        assert(found@.map_values(|x: Vec<u8>| x@) =~= before.push(sv));
                    }
                }
            }
            i = i + 1;
        }
        assert(es.subrange(0, i as int) =~= es);
        Some(found)
    }

    /// Looks up the sources of the edges indexed under `value` by `index`, in key order.
    pub fn lookup_edge_index(&self, space_id: u64, index: &Index, value: &[u8]) -> (r: Result<
        Vec<Vec<u8>>,
        StorageError,
    >)
        requires
            edge_lookup_spec(self@, space_id, index@.name, value@) is Some,
        ensures
            r matches Ok(v) && Some(v@.map_values(|x: Vec<u8>| x@)) == edge_lookup_spec(
                self@,
                space_id,
                index@.name,
                value@,
            ),
    {
        match self.try_lookup_edge_index(space_id, index, value) {
            Some(v) => Ok(v),
            None => {
                proof {
                    assert(false);
                }
                Ok(Vec::new())
            },
        }
    }
}

impl Default for EdgeIndexManager {
    fn default() -> (r: Self)
        ensures
            r@.forward.len() == 0,
            r@.reverse.len() == 0,
    {
        Self::new()
    }
}

proof fn lemma_edge_scan_contains(es: ByteList, p: int, value: Seq<u8>, j: int, src: Seq<u8>)
    requires
        0 <= j < es.len(),
        es[j].0.len() > p + 4,
        u32_at(es[j].0, p) == value.len(),
        p + 4 + value.len() <= es[j].0.len(),
        es[j].0.subrange(p + 4, p + 4 + value.len()) == value,
        es[j].0.len() >= p + 4 + value.len() + 4,
        u32_at(es[j].0, p + 4 + value.len()) == src.len(),
        es[j].0.len() >= p + 4 + value.len() + 4 + src.len(),
        es[j].0.subrange(p + 4 + value.len() + 4, p + 4 + value.len() + 4 + src.len()) == src,
    ensures
        edge_lookup_scan(es, p, value) matches Some(found) ==> found.contains(src),
    decreases es.len(),
{
    if j < es.len() - 1 {
        lemma_edge_scan_contains(es.drop_last(), p, value, j, src);
        if let Some(found) = edge_lookup_scan(es, p, value) {
            if let Some(f0) = edge_lookup_scan(es.drop_last(), p, value) {
                let k = choose|k: int| 0 <= k < f0.len() && f0[k] == src;
                if found != f0 {
                    assert(found[k] == src);
                }
            }
        }
    } else {
        if let Some(found) = edge_lookup_scan(es, p, value) {
            assert(found[found.len() - 1] == src);
        }
    }
}

/// Reading after writing, for edges: once the entries of the edge `(src, dst)` have
/// been written under index `name`, a lookup of one of the written values that
/// completes finds the edge's source.
pub proof fn lemma_edge_update_then_lookup(
    old: EdgeIndexView,
    new: EdgeIndexView,
    space_id: u64,
    name: Seq<char>,
    props: Seq<(String, Vec<u8>)>,
    src: Seq<u8>,
    dst: Seq<u8>,
    i: int,
)
    requires
        written(new.forward, old.forward, edge_forward_writes(space_id, encode_utf8(name), props, src, dst)),
        0 <= i < props.len(),
        encode_utf8(name).len() <= u32::MAX,
        props[i].1@.len() <= u32::MAX,
        src.len() <= u32::MAX,
        dst.len() <= u32::MAX,
    ensures
        edge_lookup_spec(new, space_id, name, props[i].1@) matches Some(found) ==> found.contains(src),
{
    let nb = encode_utf8(name);
    let value = props[i].1@;
    let key = edge_index_key_spec(space_id, nb, value, src, dst);
    let ws = edge_forward_writes(space_id, nb, props, src, dst);
    assert(ws[i].0 == key);
    crate::entry_map::lemma_find_some(ws, key);
    let e = find(new.forward, key)->Some_0;
    assert(find(new.forward, key) is Some);
    let pre = index_prefix_spec(space_id, KEY_TYPE_EDGE_FORWARD, nb);
    let end = range_end_spec(pre);
    crate::entry_map::lemma_find_some(new.forward, key);
    let m = choose|m: int| 0 <= m < new.forward.len() && new.forward[m] == (key, e);
    assert(new.forward.contains(new.forward[m]));
    let h = key_head(space_id, KEY_TYPE_EDGE_FORWARD);
    vstd::bytes::lemma_auto_spec_u64_to_from_le_bytes();
    assert(h.len() == 9);
    assert(key =~= pre + (framed(value) + framed(src) + framed(dst)));
    assert(key.subrange(0, pre.len() as int) =~= pre);
    assert(pre[8] == KEY_TYPE_EDGE_FORWARD);
    crate::key_codec::lemma_range_covers_prefix(pre, key);
    crate::entry_map::lemma_range_of_members(new.forward, pre, end);
    let es = range_of(new.forward, pre, end);
    assert(es.contains((key, e)));
    let j = choose|j: int| 0 <= j < es.len() && es[j] == (key, e);
    crate::bytes::lemma_framed_parts(pre, value, framed(src) + framed(dst));
    assert(key =~= pre + framed(value) + (framed(src) + framed(dst)));
    crate::bytes::lemma_framed_parts(pre + framed(value), src, framed(dst));
    assert(key =~= pre + framed(value) + framed(src) + framed(dst));
    lemma_edge_scan_contains(es, pre.len() as int, value, j, src);
}

proof fn lemma_decimal(n: nat)
    ensures
        decimal(n).len() > 0,
        all_digits(decimal(n)),
        digits_value(decimal(n)) == n,
    decreases n,
{
    if n >= 10 {
        lemma_decimal(n / 10);
        let d = decimal(n);
        assert(d.drop_last() =~= decimal(n / 10));
        assert(n % 10 < 10);
        assert(d.last() == 48 + n % 10);
        assert((n / 10) * 10 + n % 10 == n) by (nonlinear_arith);
        assert(digits_value(d) == digits_value(d.drop_last()) * 10 + (d.last() - 48) as nat);
        assert(digits_value(d) == (n / 10) * 10 + n % 10);
        assert forall|i: int| 0 <= i < d.len() implies 48 <= #[trigger] d[i] <= 57 by {
            if i < d.len() - 1 {
                assert(d[i] == decimal(n / 10)[i]);
            }
        }
    } else {
        let d = decimal(n);
        assert(d.drop_last() =~= Seq::<u8>::empty());
        assert(digits_value(d.drop_last()) == 0);
        assert(d.last() == 48 + n);
        assert(digits_value(d) == digits_value(d.drop_last()) * 10 + (d.last() - 48) as nat);
    }
}

/// A reverse value written for a property whose name has no `:` reads back its length.
pub(crate) proof fn lemma_reverse_value_len(pname: Seq<u8>, n: nat)
    requires
        forall|t: int| 0 <= t < pname.len() ==> pname[t] != 58,
        n <= usize::MAX,
    ensures
        value_len_of(reverse_value(pname, n)) == Some(n),
{
    lemma_decimal(n);
    let d = decimal(n);
    let v = reverse_value(pname, n);
    let c = pname.len() as int;
    assert(v[c] == 58);
    assert forall|t: int| 0 <= t < c implies v[t] != 58 by {
        assert(v[t] == pname[t]);
    }
    lemma_colon_skip(v, 0, c);
    assert forall|t: int| c + 1 <= t < v.len() implies v[t] != 58 by {
        assert(v[t] == d[t - c - 1]);
    }
    lemma_colon_skip(v, c + 1, v.len() as int);
    assert(v.subrange(c + 1, v.len() as int) =~= d);
    assert(d[0] != 43);
}

proof fn lemma_edge_forward_contains(es: ByteList, p: int, plen: int, src: Seq<u8>, dst: Seq<u8>, j: int)
    requires
        0 <= j < es.len(),
        edge_key_matches(es[j].0, p, plen, src, dst),
    ensures
        edge_forward_matches(es, p, plen, src, dst).contains(es[j].0),
    decreases es.len(),
{
    let f = edge_forward_matches(es, p, plen, src, dst);
    if j < es.len() - 1 {
        lemma_edge_forward_contains(es.drop_last(), p, plen, src, dst, j);
        let f0 = edge_forward_matches(es.drop_last(), p, plen, src, dst);
        let k = choose|k: int| 0 <= k < f0.len() && f0[k] == es[j].0;
        assert(f[k] == es[j].0);
    } else {
        assert(f[f.len() - 1] == es[j].0);
    }
}

/// The plan for deleting an edge removes every forward key that a selected reverse
/// entry, whose value holds a length, leads to.
proof fn lemma_edge_plan_contains(
    v: EdgeIndexView,
    es: ByteList,
    space_id: u64,
    src: Seq<u8>,
    dst: Seq<u8>,
    names: Seq<String>,
    j: int,
    plen: nat,
)
    requires
        0 <= j < es.len(),
        reverse_selected(es[j].0, space_id, src, names),
        value_len_of(es[j].1) == Some(plen),
    ensures
        ({
            let name = edge_rev_of(es[j].0)->Ok_0.0;
            let pre = index_prefix_spec(space_id, KEY_TYPE_EDGE_FORWARD, encode_utf8(name));
            forall|x: Seq<u8>|
                edge_forward_matches(range_of(v.forward, pre, range_end_spec(pre)), pre.len() as int, plen as int, src, dst).contains(x)
                    ==> #[trigger] edge_delete_plan(v, es, space_id, src, dst, names).1.contains(x)
        }),
    decreases es.len(),
{
    let name = edge_rev_of(es[j].0)->Ok_0.0;
    let pre = index_prefix_spec(space_id, KEY_TYPE_EDGE_FORWARD, encode_utf8(name));
    let f = edge_forward_matches(range_of(v.forward, pre, range_end_spec(pre)), pre.len() as int, plen as int, src, dst);
    let (rk0, fk0) = edge_delete_plan(v, es.drop_last(), space_id, src, dst, names);
    let fk = edge_delete_plan(v, es, space_id, src, dst, names).1;
    if j < es.len() - 1 {
        lemma_edge_plan_contains(v, es.drop_last(), space_id, src, dst, names, j, plen);
        assert forall|x: Seq<u8>| f.contains(x) implies #[trigger] fk.contains(x) by {
            assert(fk0.contains(x));
            let k = choose|k: int| 0 <= k < fk0.len() && fk0[k] == x;
            assert(fk[k] == x);
        }
    } else {
        assert forall|x: Seq<u8>| f.contains(x) implies #[trigger] fk.contains(x) by {
            let k = choose|k: int| 0 <= k < f.len() && f[k] == x;
            assert(fk == fk0 + f);
            assert(fk[fk0.len() + k] == x);
        }
    }
}

/// Deleting an edge removes its entries: once the edge `(src, dst)` has been deleted
/// from the indexes `names`, its forward entry under any value in index `name` of
/// those is gone, when the reverse entry of `name` and `src` holds that value's length
/// after a property name without `:`, as the index writes it.
pub proof fn lemma_edge_delete_removes(
    old: EdgeIndexView,
    new: EdgeIndexView,
    space_id: u64,
    name: Seq<char>,
    names: Seq<String>,
    pname: Seq<u8>,
    value: Seq<u8>,
    src: Seq<u8>,
    dst: Seq<u8>,
)
    requires
        removed_keys(new.forward, old.forward, edge_delete_plan(old, old.reverse, space_id, src, dst, names).1),
        names_contain(names, name),
        find(old.reverse, edge_reverse_key_spec(space_id, encode_utf8(name), src)) == Some(
            reverse_value(pname, value.len()),
        ),
        forall|t: int| 0 <= t < pname.len() ==> pname[t] != 58,
        encode_utf8(name).len() <= u32::MAX,
        value.len() <= u32::MAX,
        src.len() <= u32::MAX,
        dst.len() <= u32::MAX,
        edge_reverse_key_spec(space_id, encode_utf8(name), src).len() <= isize::MAX,
    ensures
        find(new.forward, edge_index_key_spec(space_id, encode_utf8(name), value, src, dst)) is None,
{
    let nb = encode_utf8(name);
    vstd::bytes::lemma_auto_spec_u64_to_from_le_bytes();
    let rk = edge_reverse_key_spec(space_id, nb, src);
    let rv = reverse_value(pname, value.len());
    crate::entry_map::lemma_find_some(old.reverse, rk);
    let j = choose|j: int| 0 <= j < old.reverse.len() && old.reverse[j] == (rk, rv);
    let hr = key_head(space_id, KEY_TYPE_EDGE_REVERSE);
    assert(hr.len() == 9);
    assert(rk =~= hr + (framed(nb) + framed(src)));
    assert(rk.subrange(0, 9) =~= hr);
    crate::key_codec::lemma_edge_reverse_key_roundtrip(space_id, name, src);
    assert(reverse_selected(rk, space_id, src, names));
    lemma_reverse_value_len(pname, value.len());
    lemma_edge_plan_contains(old, old.reverse, space_id, src, dst, names, j, value.len());
    let key = edge_index_key_spec(space_id, nb, value, src, dst);
    if find(old.forward, key) is Some {
        let e = find(old.forward, key)->Some_0;
        let pre = index_prefix_spec(space_id, KEY_TYPE_EDGE_FORWARD, nb);
        let end = range_end_spec(pre);
        crate::entry_map::lemma_find_some(old.forward, key);
        let m = choose|m: int| 0 <= m < old.forward.len() && old.forward[m] == (key, e);
        assert(old.forward.contains(old.forward[m]));
        let h = key_head(space_id, KEY_TYPE_EDGE_FORWARD);
        assert(h.len() == 9);
        assert(key =~= pre + (framed(value) + framed(src) + framed(dst)));
        assert(key.subrange(0, pre.len() as int) =~= pre);
        assert(pre[8] == KEY_TYPE_EDGE_FORWARD);
        crate::key_codec::lemma_range_covers_prefix(pre, key);
        crate::entry_map::lemma_range_of_members(old.forward, pre, end);
        let es = range_of(old.forward, pre, end);
        assert(es.contains((key, e)));
        let q = choose|q: int| 0 <= q < es.len() && es[q] == (key, e);
        crate::bytes::lemma_framed_parts(pre + framed(value), src, framed(dst));
        assert(key =~= pre + framed(value) + framed(src) + framed(dst));
        crate::bytes::lemma_framed_parts(pre + framed(value) + framed(src), dst, Seq::empty());
        assert(key =~= pre + framed(value) + framed(src) + framed(dst) + Seq::<u8>::empty());
        vstd::bytes::lemma_auto_spec_u32_to_from_le_bytes();
        assert(framed(value).len() == 4 + value.len());
        let s0: int = pre.len() as int + 4 + value.len() as int + 4;
        assert((pre + framed(value)).len() == s0 - 4);
        assert(u32_at(key, s0 - 4) == src.len());
        assert(key.subrange(s0, s0 + src.len()) == src);
        assert((pre + framed(value) + framed(src)).len() == s0 + src.len());
        assert(u32_at(key, s0 + src.len()) == dst.len());
        assert(key.subrange(s0 + src.len() + 4, s0 + src.len() + 4 + dst.len()) == dst);
        assert(edge_key_matches(key, pre.len() as int, value.len() as int, src, dst));
        lemma_edge_forward_contains(es, pre.len() as int, value.len() as int, src, dst, q);
    }
}

} // verus!
