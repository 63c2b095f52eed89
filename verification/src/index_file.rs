//! The file format of a persisted index map: the entry count as a little-endian
//! `u64`, then for each entry its key framed by a `u32` length, its creation
//! timestamp, a deletion flag byte and, when the flag is `1`, its deletion timestamp.
use vstd::prelude::*;
use vstd::bytes::*;
use crate::bytes::{framed, u32_at, u64_at, append_framed, append_u32_le, append_u64_le, read_u32_le, read_u64_le, copy_range, lemma_framed_parts};
use crate::entry_map::EntryList;
use crate::error::{StorageError, ErrorView, db_error};
use crate::mvcc::IndexEntry;

verus! {

/// What a read past the end of the data reports.
pub open spec fn truncated_message() -> Seq<char> {
    "failed to fill whole buffer"@
}

/// The bytes of one entry.
pub open spec fn entry_bytes(x: (Seq<u8>, IndexEntry)) -> Seq<u8> {
    framed(x.0) + spec_u32_to_le_bytes(x.1.created_ts) + match x.1.deleted_ts {
        Some(d) => seq![1u8] + spec_u32_to_le_bytes(d),
        None => seq![0u8],
    }
}

/// The bytes of a list of entries, one after the other.
pub open spec fn entries_bytes(es: EntryList) -> Seq<u8>
    decreases es.len(),
{
    if es.len() == 0 {
        Seq::empty()
    } else {
        entries_bytes(es.drop_last()) + entry_bytes(es.last())
    }
}

/// The bytes of a persisted map.
pub open spec fn file_bytes(es: EntryList) -> Seq<u8> {
    spec_u64_to_le_bytes(es.len() as u64) + entries_bytes(es)
}

/// The entry that starts at `pos`, and where the next one starts; `None` when the
/// data ends before it does.
pub open spec fn entry_at(data: Seq<u8>, pos: int) -> Option<((Seq<u8>, IndexEntry), int)> {
    if data.len() < pos + 4 {
        None
    } else {
        let kl = u32_at(data, pos) as int;
        let p = pos + 4 + kl;
        if data.len() < p + 5 {
            None
        } else {
            let key = data.subrange(pos + 4, p);
            let created = u32_at(data, p);
            if data[p + 4] == 1 {
                if data.len() < p + 9 {
                    None
                } else {
                    Some(((key, IndexEntry { created_ts: created, deleted_ts: Some(u32_at(data, p + 5)) }), p + 9))
                }
            } else {
                Some(((key, IndexEntry { created_ts: created, deleted_ts: None }), p + 5))
            }
        }
    }
}

/// Reading `n` entries from `pos`: those read, and whether all `n` were there.
pub open spec fn entries_from(data: Seq<u8>, pos: int, n: nat) -> (EntryList, bool)
    decreases n,
{
    if n == 0 {
        (Seq::empty(), true)
    } else {
        match entry_at(data, pos) {
            None => (Seq::empty(), false),
            Some((x, next)) => {
                let (rest, complete) = entries_from(data, next, (n - 1) as nat);
                (seq![x] + rest, complete)
            },
        }
    }
}

/// Appends the bytes of one entry.
fn append_entry(out: &mut Vec<u8>, key: &[u8], e: IndexEntry)
    ensures
        final(out)@ == old(out)@ + entry_bytes((key@, e)),
{
    append_framed(out, key);
    append_u32_le(out, e.created_ts);
    match e.deleted_ts {
        Some(d) => {
            out.push(1u8);
            append_u32_le(out, d);
        },
        None => {
            out.push(0u8);
        },
    }
    assert(out@ =~= old(out)@ + entry_bytes((key@, e)));
}

/// The bytes of a persisted map holding `entries`.
pub fn encode_entries(entries: &Vec<(Vec<u8>, IndexEntry)>) -> (r: Vec<u8>)
    ensures
        r@ == file_bytes(crate::entry_map::list_view(entries@)),
{
    let ghost es = crate::entry_map::list_view(entries@);
    let mut out: Vec<u8> = Vec::new();
    append_u64_le(&mut out, entries.len() as u64);
    let ghost head = out@;
    let mut i: usize = 0;
    while i < entries.len()
        invariant
            i <= entries@.len(),
            es == crate::entry_map::list_view(entries@),
            out@ == head + entries_bytes(es.subrange(0, i as int)),
        decreases entries@.len() - i,
    {
        assert(es.subrange(0, i as int + 1).drop_last() =~= es.subrange(0, i as int));
        assert(es[i as int] == (entries@[i as int].0@, entries@[i as int].1));
        append_entry(&mut out, entries[i].0.as_slice(), entries[i].1);
        assert(out@ =~= head + entries_bytes(es.subrange(0, i as int + 1)));
        i = i + 1;
    }
    assert(es.subrange(0, i as int) =~= es);
    out
}

/// Reads the entry at `pos`.
fn read_entry(data: &[u8], pos: usize) -> (r: Option<((Vec<u8>, IndexEntry), usize)>)
    requires
        pos <= data@.len(),
        data@.len() <= isize::MAX,
    ensures
        match entry_at(data@, pos as int) {
            None => r is None,
            Some((x, next)) => r matches Some(y) && y.0.0@ == x.0 && y.0.1 == x.1 && y.1 == next,
        },
{
    if data.len() - pos < 4 {
        return None;
    }
    let kl = read_u32_le(data, pos) as usize;
    if data.len() - pos - 4 < kl {
        return None;
    }
    let p = pos + 4 + kl;
    if data.len() - p < 5 {
        return None;
    }
    let key = copy_range(data, pos + 4, p);
    let created = read_u32_le(data, p);
    if data[p + 4] == 1 {
        if data.len() - p < 9 {
            return None;
        }
        let d = read_u32_le(data, p + 5);
        Some(((key, IndexEntry { created_ts: created, deleted_ts: Some(d) }), p + 9))
    } else {
        Some(((key, IndexEntry { created_ts: created, deleted_ts: None }), p + 5))
    }
}

/// The result of reading a persisted map: `Ok` with its entries when the data holds
/// the count and all the entries it announces (bytes after them are ignored), or
/// the read error.
pub open spec fn decode_spec(data: Seq<u8>) -> Result<EntryList, ErrorView> {
    if data.len() < 8 {
        Err(ErrorView::DbError(truncated_message()))
    } else {
        let (es, complete) = entries_from(data, 8, u64_at(data, 0) as nat);
        if complete {
            Ok(es)
        } else {
            Err(ErrorView::DbError(truncated_message()))
        }
    }
}

proof fn lemma_entries_from_step(data: Seq<u8>, pos: int, n: nat, x: (Seq<u8>, IndexEntry), next: int)
    requires
        n > 0,
        entry_at(data, pos) == Some((x, next)),
    ensures
        entries_from(data, pos, n).0 == seq![x] + entries_from(data, next, (n - 1) as nat).0,
        entries_from(data, pos, n).1 == entries_from(data, next, (n - 1) as nat).1,
{
}

/// Reads the entries of a persisted map, for loading: the entries read before the
/// data ran out, and the outcome.
pub fn decode_entries(data: &[u8]) -> (r: (Vec<(Vec<u8>, IndexEntry)>, Result<(), StorageError>))
    requires
        data@.len() <= isize::MAX,
    ensures
        data@.len() < 8 ==> r.0@.len() == 0 && (r.1 matches Err(e) && e@ == ErrorView::DbError(truncated_message())),
        data@.len() >= 8 ==> {
            let (es, complete) = entries_from(data@, 8, u64_at(data@, 0) as nat);
            &&& crate::entry_map::list_view(r.0@) == es
            &&& complete ==> r.1 is Ok
            &&& !complete ==> (r.1 matches Err(e) && e@ == ErrorView::DbError(truncated_message()))
        },
{
    if data.len() < 8 {
        let v: Vec<(Vec<u8>, IndexEntry)> = Vec::new();
        return (v, Err(db_error("failed to fill whole buffer")));
    }
    let count = read_u64_le(data, 0);
    let ghost total = entries_from(data@, 8, count as nat);
    let mut out: Vec<(Vec<u8>, IndexEntry)> = Vec::new();
    let mut pos: usize = 8;
    let mut k: u64 = 0;
    assert(crate::entry_map::list_view(out@) =~= Seq::<(Seq<u8>, IndexEntry)>::empty());
    assert(total.0 =~= crate::entry_map::list_view(out@) + entries_from(data@, pos as int, (count - k) as nat).0);
    while k < count
        invariant
            k <= count,
            count == u64_at(data@, 0),
            8 <= pos <= data@.len(),
            data@.len() <= isize::MAX,
            total == entries_from(data@, 8, count as nat),
            total.0 == crate::entry_map::list_view(out@) + entries_from(data@, pos as int, (count - k) as nat).0,
            total.1 == entries_from(data@, pos as int, (count - k) as nat).1,
        decreases count - k,
    {
        match read_entry(data, pos) {
            None => {
                assert(entries_from(data@, pos as int, (count - k) as nat).0 =~= Seq::<(Seq<u8>, IndexEntry)>::empty());
                assert(total.0 =~= crate::entry_map::list_view(out@));
                return (out, Err(db_error("failed to fill whole buffer")));
            },
            Some((x, next)) => {
                let ghost xv = (x.0@, x.1);
                proof {
                    lemma_entries_from_step(data@, pos as int, (count - k) as nat, xv, next as int);
                }
                let ghost before = crate::entry_map::list_view(out@);
                out.push(x);
                assert(crate::entry_map::list_view(out@) =~= before.push(xv));
                assert(total.0 =~= crate::entry_map::list_view(out@) + entries_from(data@, next as int, (count - (k + 1)) as nat).0);
                pos = next;
                k = k + 1;
            },
        }
    }
    assert(entries_from(data@, pos as int, 0).0 =~= Seq::<(Seq<u8>, IndexEntry)>::empty());
    assert(total.0 =~= crate::entry_map::list_view(out@));
    (out, Ok(()))
}

/// Every key fits the 32-bit length field.
pub open spec fn keys_fit(es: EntryList) -> bool {
    forall|i: int| 0 <= i < es.len() ==> (#[trigger] es[i]).0.len() <= u32::MAX
}

proof fn lemma_entries_bytes_front(es: EntryList)
    requires
        es.len() > 0,
    ensures
        entries_bytes(es) == entry_bytes(es[0]) + entries_bytes(es.drop_first()),
    decreases es.len(),
{
    if es.len() == 1 {
        assert(es.drop_last() =~= Seq::<(Seq<u8>, IndexEntry)>::empty());
        assert(es.drop_first() =~= Seq::<(Seq<u8>, IndexEntry)>::empty());
        assert(entries_bytes(es.drop_last()) == Seq::<u8>::empty());
        assert(entries_bytes(es.drop_first()) == Seq::<u8>::empty());
        assert(es.last() == es[0]);
        assert(entries_bytes(es) =~= entry_bytes(es[0]));
    } else {
        lemma_entries_bytes_front(es.drop_last());
        assert(es.drop_last().drop_first() =~= es.drop_first().drop_last());
        assert(es.drop_first().last() == es.last());
    }
}

proof fn lemma_entry_at(pre: Seq<u8>, x: (Seq<u8>, IndexEntry), post: Seq<u8>)
    requires
        x.0.len() <= u32::MAX,
    ensures
        entry_at(pre + entry_bytes(x) + post, pre.len() as int) == Some((x, (pre.len() + entry_bytes(x).len()) as int)),
{
    lemma_auto_spec_u32_to_from_le_bytes();
    let data = pre + entry_bytes(x) + post;
    let p = pre.len() as int;
    let kl = x.0.len() as int;
    let ct = spec_u32_to_le_bytes(x.1.created_ts);
    let tail = match x.1.deleted_ts {
        Some(d) => seq![1u8] + spec_u32_to_le_bytes(d),
        None => seq![0u8],
    };
    lemma_framed_parts(pre, x.0, ct + tail + post);
    assert(data =~= pre + framed(x.0) + (ct + tail + post));
    let q = p + 4 + kl;
    assert(data.subrange(q, q + 4) =~= ct);
    assert(data[q + 4] == tail[0]);
    match x.1.deleted_ts {
        Some(d) => {
            assert(data.subrange(q + 5, q + 9) =~= spec_u32_to_le_bytes(d));
        },
        None => {},
    }
}

proof fn lemma_entries_from_bytes(pre: Seq<u8>, es: EntryList, post: Seq<u8>)
    requires
        keys_fit(es),
    ensures
        entries_from(pre + entries_bytes(es) + post, pre.len() as int, es.len()) == (es, true),
    decreases es.len(),
{
    let data = pre + entries_bytes(es) + post;
    if es.len() == 0 {
        assert(es =~= Seq::<(Seq<u8>, IndexEntry)>::empty());
    } else {
        lemma_entries_bytes_front(es);
        let x = es[0];
        let rest = es.drop_first();
        assert(keys_fit(rest)) by {
            assert forall|i: int| 0 <= i < rest.len() implies (#[trigger] rest[i]).0.len() <= u32::MAX by {
                assert(rest[i] == es[i + 1]);
            }
        }
        assert(data =~= pre + entry_bytes(x) + (entries_bytes(rest) + post));
        lemma_entry_at(pre, x, entries_bytes(rest) + post);
        let pre2 = pre + entry_bytes(x);
        lemma_entries_from_bytes(pre2, rest, post);
        assert(pre2 + entries_bytes(rest) + post =~= data);
        assert(seq![x] + rest =~= es);
    }
}

/// Reading back a persisted map gives the entries that were written.
pub proof fn lemma_file_roundtrip(es: EntryList)
    requires
        keys_fit(es),
        es.len() <= u64::MAX,
    ensures
        decode_spec(file_bytes(es)) == Ok::<EntryList, ErrorView>(es),
{
    lemma_auto_spec_u64_to_from_le_bytes();
    let data = file_bytes(es);
    let c = spec_u64_to_le_bytes(es.len() as u64);
    assert(data.subrange(0, 8) =~= c);
    lemma_entries_from_bytes(c, es, Seq::empty());
    assert(c + entries_bytes(es) + Seq::<u8>::empty() =~= data);
}

} // verus!
