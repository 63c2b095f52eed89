//! An ordered map from byte keys to the lifetimes of index entries, kept as a list
//! sorted in byte order, as an ordered tree would hold it. Range scans walk the keys
//! in that order.
use vstd::prelude::*;
use crate::key_codec::lex_lt;
use crate::mvcc::IndexEntry;

verus! {

// ---------------------------------------------------------------------------
// Byte order
// ---------------------------------------------------------------------------
/// No key is below itself.
pub proof fn lemma_lex_irreflexive(a: Seq<u8>)
    ensures
        !lex_lt(a, a),
    decreases a.len(),
{
    if a.len() > 0 {
        lemma_lex_irreflexive(a.drop_first());
    }
}

/// Byte order is transitive.
pub proof fn lemma_lex_transitive(a: Seq<u8>, b: Seq<u8>, c: Seq<u8>)
    requires
        lex_lt(a, b),
        lex_lt(b, c),
    ensures
        lex_lt(a, c),
    decreases a.len(),
{
    if a.len() > 0 && b.len() > 0 && c.len() > 0 && a[0] == b[0] && b[0] == c[0] {
        lemma_lex_transitive(a.drop_first(), b.drop_first(), c.drop_first());
    }
}

/// Of two different keys, one is below the other.
pub proof fn lemma_lex_total(a: Seq<u8>, b: Seq<u8>)
    requires
        a != b,
    ensures
        lex_lt(a, b) || lex_lt(b, a),
    decreases a.len(),
{
    if a.len() > 0 && b.len() > 0 && a[0] == b[0] {
        if a.drop_first() == b.drop_first() {
            assert(a =~= seq![a[0]] + a.drop_first());
            assert(b =~= seq![b[0]] + b.drop_first());
        }
        lemma_lex_total(a.drop_first(), b.drop_first());
    } else if a.len() == 0 && b.len() == 0 {
        assert(a =~= b);
    }
}

proof fn lemma_lex_skip(a: Seq<u8>, b: Seq<u8>, i: int)
    requires
        0 <= i <= a.len(),
        i <= b.len(),
        a.subrange(0, i) == b.subrange(0, i),
    ensures
        lex_lt(a, b) == lex_lt(a.subrange(i, a.len() as int), b.subrange(i, b.len() as int)),
    decreases i,
{
    if i > 0 {
        assert(a[0] == a.subrange(0, i)[0]);
        assert(b[0] == b.subrange(0, i)[0]);
        assert(a.drop_first().subrange(0, i - 1) =~= a.subrange(1, i));
        assert(b.drop_first().subrange(0, i - 1) =~= b.subrange(1, i));
        assert(a.subrange(1, i) =~= a.subrange(0, i).drop_first());
        assert(b.subrange(1, i) =~= b.subrange(0, i).drop_first());
        lemma_lex_skip(a.drop_first(), b.drop_first(), i - 1);
        assert(a.drop_first().subrange(i - 1, a.len() - 1) =~= a.subrange(i, a.len() as int));
        assert(b.drop_first().subrange(i - 1, b.len() - 1) =~= b.subrange(i, b.len() as int));
    } else {
        assert(a.subrange(0, a.len() as int) =~= a);
        assert(b.subrange(0, b.len() as int) =~= b);
    }
}

/// Compares two keys in byte order: `-1` when `a` is below `b`, `0` when they are
/// equal, `1` when `a` is above `b`.
pub fn byte_order(a: &[u8], b: &[u8]) -> (r: i8)
    ensures
        r == -1 <==> lex_lt(a@, b@),
        r == 0 <==> a@ == b@,
        r == 1 <==> lex_lt(b@, a@),
        r == -1 || r == 0 || r == 1,
{
    proof {
        lemma_lex_irreflexive(a@);
    }
    let mut i: usize = 0;
    while i < a.len() && i < b.len()
        invariant
            i <= a@.len(),
            i <= b@.len(),
            a@.subrange(0, i as int) == b@.subrange(0, i as int),
        decreases a@.len() - i,
    {
        if a[i] != b[i] {
            proof {
                lemma_lex_skip(a@, b@, i as int);
                lemma_lex_skip(b@, a@, i as int);
                assert(a@.subrange(i as int, a@.len() as int)[0] == a@[i as int]);
                assert(b@.subrange(i as int, b@.len() as int)[0] == b@[i as int]);
                if a@ == b@ {
                    assert(a@[i as int] == b@[i as int]);
                }
            }
            if a[i] < b[i] {
                return -1;
            } else {
                return 1;
            }
        }
        proof {
            assert(a@.subrange(0, i as int + 1) =~= a@.subrange(0, i as int).push(a@[i as int]));
            assert(b@.subrange(0, i as int + 1) =~= b@.subrange(0, i as int).push(b@[i as int]));
        }
        i = i + 1;
    }
    proof {
        lemma_lex_skip(a@, b@, i as int);
        lemma_lex_skip(b@, a@, i as int);
    }
    if a.len() == b.len() {
        proof {
            assert(a@ =~= a@.subrange(0, i as int));
            assert(b@ =~= b@.subrange(0, i as int));
        }
        0
    } else if a.len() < b.len() {
        proof {
            assert(a@.subrange(i as int, a@.len() as int).len() == 0);
        }
        -1
    } else {
        proof {
            assert(b@.subrange(i as int, b@.len() as int).len() == 0);
        }
        1
    }
}

// ---------------------------------------------------------------------------
// Sorted entry lists
// ---------------------------------------------------------------------------
/// The entries of a map, key and lifetime.
pub type EntryList = Seq<(Seq<u8>, IndexEntry)>;

/// The keys strictly increase along the list.
pub open spec fn sorted_keys<V>(s: Seq<(Seq<u8>, V)>) -> bool {
    forall|i: int, j: int| 0 <= i < j < s.len() ==> lex_lt(#[trigger] s[i].0, #[trigger] s[j].0)
}

/// The lifetime stored under `k`, if any (the last one, were the key repeated).
pub open spec fn find<V>(s: Seq<(Seq<u8>, V)>, k: Seq<u8>) -> Option<V>
    decreases s.len(),
{
    if s.len() == 0 {
        None
    } else if s.last().0 == k {
        Some(s.last().1)
    } else {
        find(s.drop_last(), k)
    }
}

/// Whether `k` lies in the half-open range `[lo, hi)` of byte order.
pub open spec fn in_range(k: Seq<u8>, lo: Seq<u8>, hi: Seq<u8>) -> bool {
    !lex_lt(k, lo) && lex_lt(k, hi)
}

/// The entries of `s` whose keys lie in `[lo, hi)`, in list order.
pub open spec fn range_of<V>(s: Seq<(Seq<u8>, V)>, lo: Seq<u8>, hi: Seq<u8>) -> Seq<(Seq<u8>, V)>
    decreases s.len(),
{
    if s.len() == 0 {
        s
    } else {
        range_of(s.drop_last(), lo, hi) + if in_range(s.last().0, lo, hi) {
            seq![s.last()]
        } else {
            Seq::empty()
        }
    }
}

/// The entries of `s` that are deleted before `safe_ts`.
pub open spec fn is_stale(e: IndexEntry, safe_ts: u32) -> bool {
    e.deleted_ts matches Some(d) && d < safe_ts
}

/// The entries of `s` that are not stale at `safe_ts`, in list order.
pub open spec fn live_at(s: EntryList, safe_ts: u32) -> EntryList
    decreases s.len(),
{
    if s.len() == 0 {
        s
    } else {
        live_at(s.drop_last(), safe_ts) + if is_stale(s.last().1, safe_ts) {
            Seq::empty()
        } else {
            seq![s.last()]
        }
    }
}

/// In a sorted list, the entry at `i` is the one found under its key.
pub proof fn lemma_find_at<V>(s: Seq<(Seq<u8>, V)>, i: int)
    requires
        sorted_keys(s),
        0 <= i < s.len(),
    ensures
        find(s, s[i].0) == Some(s[i].1),
    decreases s.len(),
{
    if i < s.len() - 1 {
        assert(lex_lt(s[i].0, s[s.len() - 1].0));
        lemma_lex_irreflexive(s[i].0);
        lemma_find_at(s.drop_last(), i);
    }
}

/// A key found in a list is the key of one of its entries.
pub proof fn lemma_find_some<V>(s: Seq<(Seq<u8>, V)>, k: Seq<u8>)
    ensures
        find(s, k) matches Some(e) ==> exists|i: int| 0 <= i < s.len() && s[i] == (k, e),
        find(s, k) is None ==> forall|i: int| 0 <= i < s.len() ==> #[trigger] s[i].0 != k,
    decreases s.len(),
{
    if s.len() > 0 {
        lemma_find_some(s.drop_last(), k);
        if let Some(e) = find(s.drop_last(), k) {
            if s.last().0 != k {
                let i = choose|i: int| 0 <= i < s.drop_last().len() && s.drop_last()[i] == (k, e);
                assert(s[i] == (k, e));
            }
        }
        if find(s, k) is None {
            assert forall|i: int| 0 <= i < s.len() implies #[trigger] s[i].0 != k by {
                if i < s.len() - 1 {
                    assert(s.drop_last()[i] == s[i]);
                }
            }
        }
    }
}

/// The entries of a range are the entries of the list whose keys lie in the range.
pub proof fn lemma_range_of_members<V>(s: Seq<(Seq<u8>, V)>, lo: Seq<u8>, hi: Seq<u8>)
    ensures
        forall|x: (Seq<u8>, V)| #[trigger] range_of(s, lo, hi).contains(x) <==> (s.contains(x) && in_range(x.0, lo, hi)),
    decreases s.len(),
{
    if s.len() > 0 {
        let t = s.drop_last();
        lemma_range_of_members(t, lo, hi);
        assert forall|x: (Seq<u8>, V)| #[trigger] range_of(s, lo, hi).contains(x) <==> (s.contains(x) && in_range(
            x.0,
            lo,
            hi,
        )) by {
            let r = range_of(t, lo, hi);
            let tail = if in_range(s.last().0, lo, hi) {
                seq![s.last()]
            } else {
                Seq::empty()
            };
            if range_of(s, lo, hi).contains(x) {
                let k = choose|k: int| 0 <= k < range_of(s, lo, hi).len() && range_of(s, lo, hi)[k] == x;
                if k < r.len() {
                    assert(r[k] == x);
                    assert(r.contains(x));
                    let j = choose|j: int| 0 <= j < t.len() && t[j] == x;
                    assert(s[j] == x);
                } else {
                    assert(tail[k - r.len()] == x);
                    assert(s[s.len() - 1] == x);
                }
            }
            if s.contains(x) && in_range(x.0, lo, hi) {
                let j = choose|j: int| 0 <= j < s.len() && s[j] == x;
                if j < s.len() - 1 {
                    assert(t[j] == x);
                    assert(t.contains(x));
                    assert(r.contains(x));
                    let k = choose|k: int| 0 <= k < r.len() && r[k] == x;
                    assert(range_of(s, lo, hi)[k] == x);
                } else {
                    assert(range_of(s, lo, hi)[r.len() as int] == x);
                }
            }
        }
    }
}

/// A sub-list of a sorted list, kept in order, is sorted.
pub proof fn lemma_range_of_sorted<V>(s: Seq<(Seq<u8>, V)>, lo: Seq<u8>, hi: Seq<u8>)
    requires
        sorted_keys(s),
    ensures
        sorted_keys(range_of(s, lo, hi)),
    decreases s.len(),
{
    if s.len() > 0 {
        let t = s.drop_last();
        assert(sorted_keys(t)) by {
            assert forall|i: int, j: int| 0 <= i < j < t.len() implies lex_lt(#[trigger] t[i].0, #[trigger] t[j].0) by {
                assert(t[i] == s[i] && t[j] == s[j]);
            }
        }
        lemma_range_of_sorted(t, lo, hi);
        lemma_range_of_members(t, lo, hi);
        let r = range_of(t, lo, hi);
        if in_range(s.last().0, lo, hi) {
            let n = range_of(s, lo, hi);
            assert forall|i: int, j: int| 0 <= i < j < n.len() implies lex_lt(#[trigger] n[i].0, #[trigger] n[j].0) by {
                if j < r.len() {
                    assert(n[i] == r[i] && n[j] == r[j]);
                } else {
                    assert(n[j] == s.last());
                    assert(n[i] == r[i]);
                    assert(r.contains(r[i]));
                    let k = choose|k: int| 0 <= k < t.len() && t[k] == r[i];
                    assert(s[k] == r[i]);
                    assert(lex_lt(s[k].0, s[s.len() - 1].0));
                }
            }
        } else {
            assert(range_of(s, lo, hi) =~= r);
        }
    }
}

/// In a sorted list, a key above every entry before `i` and below the entry at `i`
/// is absent.
pub proof fn lemma_absent_between<V>(s: Seq<(Seq<u8>, V)>, key: Seq<u8>, i: int)
    requires
        sorted_keys(s),
        0 <= i <= s.len(),
        forall|j: int| 0 <= j < i ==> lex_lt(#[trigger] s[j].0, key),
        i < s.len() ==> lex_lt(key, s[i].0),
    ensures
        find(s, key) is None,
{
    lemma_find_some(s, key);
    if let Some(e) = find(s, key) {
        let j = choose|j: int| 0 <= j < s.len() && s[j] == (key, e);
        lemma_lex_irreflexive(key);
        if j < i {
            assert(lex_lt(s[j].0, key));
        } else if j > i {
            assert(lex_lt(s[i].0, s[j].0));
            lemma_lex_transitive(key, s[i].0, key);
        }
    }
}

/// Two sorted lists that hold the same entries apart from those under `key` find the
/// same lifetime under every other key.
pub proof fn lemma_same_finds<V>(old: Seq<(Seq<u8>, V)>, new: Seq<(Seq<u8>, V)>, key: Seq<u8>)
    requires
        sorted_keys(old),
        sorted_keys(new),
        forall|j: int| 0 <= j < old.len() && old[j].0 != key ==> new.contains(#[trigger] old[j]),
        forall|j: int| 0 <= j < new.len() && new[j].0 != key ==> old.contains(#[trigger] new[j]),
    ensures
        forall|k: Seq<u8>| k != key ==> #[trigger] find(new, k) == find(old, k),
{
    assert forall|k: Seq<u8>| k != key implies #[trigger] find(new, k) == find(old, k) by {
        lemma_find_some(old, k);
        lemma_find_some(new, k);
        if let Some(e) = find(old, k) {
            let j = choose|j: int| 0 <= j < old.len() && old[j] == (k, e);
            assert(new.contains(old[j]));
            let m = choose|m: int| 0 <= m < new.len() && new[m] == old[j];
            lemma_find_at(new, m);
        } else if let Some(e) = find(new, k) {
            let m = choose|m: int| 0 <= m < new.len() && new[m] == (k, e);
            assert(old.contains(new[m]));
            let j = choose|j: int| 0 <= j < old.len() && old[j] == new[m];
            assert(old[j].0 == k);
        }
    }
}

/// The entries of a sorted list that are not stale form a sorted list.
pub proof fn lemma_live_at_sorted(s: EntryList, safe_ts: u32)
    requires
        sorted_keys(s),
    ensures
        sorted_keys(live_at(s, safe_ts)),
        forall|x: (Seq<u8>, IndexEntry)| #[trigger] live_at(s, safe_ts).contains(x) <==> (s.contains(x) && !is_stale(x.1, safe_ts)),
    decreases s.len(),
{
    if s.len() > 0 {
        let t = s.drop_last();
        assert(sorted_keys(t)) by {
            assert forall|i: int, j: int| 0 <= i < j < t.len() implies lex_lt(#[trigger] t[i].0, #[trigger] t[j].0) by {
                assert(t[i] == s[i] && t[j] == s[j]);
            }
        }
        lemma_live_at_sorted(t, safe_ts);
        let r = live_at(t, safe_ts);
        let n = live_at(s, safe_ts);
        assert forall|x: (Seq<u8>, IndexEntry)| #[trigger] n.contains(x) <==> (s.contains(x) && !is_stale(x.1, safe_ts)) by {
            if n.contains(x) {
                let k = choose|k: int| 0 <= k < n.len() && n[k] == x;
                if k < r.len() {
                    assert(r[k] == x);
                    assert(r.contains(x));
                    let j = choose|j: int| 0 <= j < t.len() && t[j] == x;
                    assert(s[j] == x);
                } else {
                    assert(s[s.len() - 1] == x);
                }
            }
            if s.contains(x) && !is_stale(x.1, safe_ts) {
                let j = choose|j: int| 0 <= j < s.len() && s[j] == x;
                if j < s.len() - 1 {
                    assert(t[j] == x);
                    assert(t.contains(x));
                    assert(r.contains(x));
                    let k = choose|k: int| 0 <= k < r.len() && r[k] == x;
                    assert(n[k] == x);
                } else {
                    assert(n[r.len() as int] == x);
                }
            }
        }
        if !is_stale(s.last().1, safe_ts) {
            assert forall|i: int, j: int| 0 <= i < j < n.len() implies lex_lt(#[trigger] n[i].0, #[trigger] n[j].0) by {
                if j < r.len() {
                    assert(n[i] == r[i] && n[j] == r[j]);
                } else {
                    assert(n[j] == s.last());
                    assert(n[i] == r[i]);
                    assert(r.contains(r[i]));
                    let k = choose|k: int| 0 <= k < t.len() && t[k] == r[i];
                    assert(s[k] == r[i]);
                    assert(lex_lt(s[k].0, s[s.len() - 1].0));
                }
            }
        } else {
            assert(n =~= r);
        }
    }
}

/// The number of deleted entries of a list.
pub open spec fn deleted_count(s: EntryList) -> nat
    decreases s.len(),
{
    if s.len() == 0 {
        0
    } else {
        deleted_count(s.drop_last()) + if s.last().1.deleted_ts is Some {
            1nat
        } else {
            0nat
        }
    }
}

// ---------------------------------------------------------------------------
// The map
// ---------------------------------------------------------------------------
/// An ordered map from byte keys to entry lifetimes.
#[derive(Debug)]
pub struct EntryMap {
    entries: Vec<(Vec<u8>, IndexEntry)>,
}

/// The mathematical form of a stored entry list.
pub open spec fn list_view(v: Seq<(Vec<u8>, IndexEntry)>) -> EntryList {
    v.map_values(|p: (Vec<u8>, IndexEntry)| (p.0@, p.1))
}

impl View for EntryMap {
    type V = EntryList;

    closed spec fn view(&self) -> EntryList {
        list_view(self.entries@)
    }
}

impl EntryMap {
    /// The keys increase along the list.
    #[verifier::type_invariant]
    spec fn inv(&self) -> bool {
        sorted_keys(list_view(self.entries@))
    }

    /// An empty map.
    pub fn new() -> (r: Self)
        ensures
            r@ == Seq::<(Seq<u8>, IndexEntry)>::empty(),
    {
        let r = EntryMap { entries: Vec::new() };
        assert(list_view(r.entries@) =~= Seq::<(Seq<u8>, IndexEntry)>::empty());
        r
    }

    /// The number of entries.
    pub fn len(&self) -> (r: usize)
        ensures
            r == self@.len(),
    {
        self.entries.len()
    }

    /// The position at which `key` is, or would go: the first entry whose key is not
    /// below `key`.
    fn position(&self, key: &[u8]) -> (r: (usize, bool))
        ensures
            r.0 <= self@.len(),
            forall|i: int| 0 <= i < r.0 ==> lex_lt(#[trigger] self@[i].0, key@),
            r.0 < self@.len() ==> !lex_lt(self@[r.0 as int].0, key@),
            r.1 == (r.0 < self@.len() && self@[r.0 as int].0 == key@),
            r.0 < self@.len() && !r.1 ==> lex_lt(key@, self@[r.0 as int].0),
    {
        proof {
            use_type_invariant(self);
        }
        let ghost s = self@;
        let mut i: usize = 0;
        while i < self.entries.len()
            invariant
                i <= s.len(),
                s == self@,
                s.len() == self.entries@.len(),
                forall|j: int| 0 <= j < i ==> lex_lt(#[trigger] s[j].0, key@),
            decreases s.len() - i,
        {
            let o = byte_order(self.entries[i].0.as_slice(), key);
            assert(s[i as int].0 == self.entries@[i as int].0@);
            if o != -1 {
                if o == 0 {
                    return (i, true);
                } else {
                    proof {
                        lemma_lex_irreflexive(key@);
                        if s[i as int].0 == key@ {
                        }
                    }
                    return (i, false);
                }
            }
            i = i + 1;
        }
        (i, false)
    }

    /// The lifetime stored under `key`.
    pub fn get(&self, key: &[u8]) -> (r: Option<IndexEntry>)
        ensures
            r == find(self@, key@),
    {
        proof {
            use_type_invariant(self);
        }
        let (i, found) = self.position(key);
        if found {
            proof {
                lemma_find_at(self@, i as int);
            }
            assert(self@[i as int].1 == self.entries@[i as int].1);
            Some(self.entries[i].1)
        } else {
            proof {
                lemma_find_some(self@, key@);
                if let Some(e) = find(self@, key@) {
                    let j = choose|j: int| 0 <= j < self@.len() && self@[j] == (key@, e);
                    if j < i {
                        assert(lex_lt(self@[j].0, key@));
                        lemma_lex_irreflexive(key@);
                    } else if j > i {
                        assert(i < self@.len());
                        assert(lex_lt(self@[i as int].0, self@[j].0));
                        lemma_lex_irreflexive(key@);
                        if lex_lt(key@, self@[i as int].0) {
                            lemma_lex_transitive(key@, self@[i as int].0, key@);
                        }
                    }
                }
            }
            None
        }
    }

    /// Stores `entry` under `key`, returning the lifetime it replaced.
    pub fn insert(&mut self, key: Vec<u8>, entry: IndexEntry) -> (r: Option<IndexEntry>)
        ensures
            sorted_keys(final(self)@),
            r == find(old(self)@, key@),
            find(final(self)@, key@) == Some(entry),
            forall|k: Seq<u8>| k != key@ ==> #[trigger] find(final(self)@, k) == find(old(self)@, k),
            final(self)@.len() == old(self)@.len() + if r is None {
                1int
            } else {
                0int
            },
    {
        proof {
            use_type_invariant(&*self);
        }
        let ghost old_list = self@;
        let r = self.get(key.as_slice());
        let (i, found) = self.position(key.as_slice());
        let ghost kv = key@;
        if found {
            let ghost new_list = old_list.update(i as int, (kv, entry));
            proof {
                lemma_find_at(old_list, i as int);
                assert forall|a: int, b: int| 0 <= a < b < new_list.len() implies lex_lt(
                    #[trigger] new_list[a].0,
                    #[trigger] new_list[b].0,
                ) by {
                    assert(lex_lt(old_list[a].0, old_list[b].0));
                }
                assert(list_view(self.entries@.update(i as int, (key, entry))) =~= new_list);
                lemma_find_at(new_list, i as int);
                assert forall|j: int| 0 <= j < old_list.len() && old_list[j].0 != kv implies new_list.contains(
                    #[trigger] old_list[j],
                ) by {
                    assert(new_list[j] == old_list[j]);
                }
                assert forall|j: int| 0 <= j < new_list.len() && new_list[j].0 != kv implies old_list.contains(
                    #[trigger] new_list[j],
                ) by {
                    assert(new_list[j] == old_list[j]);
                }
                lemma_same_finds(old_list, new_list, kv);
            }
            let mut v: Vec<(Vec<u8>, IndexEntry)> = Vec::new();
            std::mem::swap(&mut v, &mut self.entries);
            v.set(i, (key, entry));
            self.entries = v;
        } else {
            let ghost new_list = old_list.insert(i as int, (kv, entry));
            proof {
                lemma_absent_between(old_list, kv, i as int);
                old_list.insert_ensures(i as int, (kv, entry));
                assert forall|a: int, b: int| 0 <= a < b < new_list.len() implies lex_lt(
                    #[trigger] new_list[a].0,
                    #[trigger] new_list[b].0,
                ) by {
                    if b < i {
                        assert(lex_lt(old_list[a].0, old_list[b].0));
                    } else if b == i {
                        assert(lex_lt(old_list[a].0, kv));
                    } else if a < i {
                        assert(new_list[b] == old_list[b - 1]);
                        assert(lex_lt(old_list[a].0, kv));
                        if b - 1 > i {
                            assert(lex_lt(old_list[i as int].0, old_list[b - 1].0));
                            lemma_lex_transitive(kv, old_list[i as int].0, old_list[b - 1].0);
                        }
                        lemma_lex_transitive(old_list[a].0, kv, old_list[b - 1].0);
                    } else if a == i {
                        assert(new_list[b] == old_list[b - 1]);
                        if b - 1 > i {
                            assert(lex_lt(old_list[i as int].0, old_list[b - 1].0));
                            lemma_lex_transitive(kv, old_list[i as int].0, old_list[b - 1].0);
                        }
                    } else {
                        assert(new_list[a] == old_list[a - 1]);
                        assert(new_list[b] == old_list[b - 1]);
                        assert(lex_lt(old_list[a - 1].0, old_list[b - 1].0));
                    }
                }
                assert(list_view(self.entries@.insert(i as int, (key, entry))) =~= new_list) by {
                    self.entries@.insert_ensures(i as int, (key, entry));
                }
                lemma_find_at(new_list, i as int);
                assert forall|j: int| 0 <= j < old_list.len() && old_list[j].0 != kv implies new_list.contains(
                    #[trigger] old_list[j],
                ) by {
                    if j < i {
                        assert(new_list[j] == old_list[j]);
                    } else {
                        assert(new_list[j + 1] == old_list[j]);
                    }
                }
                assert forall|j: int| 0 <= j < new_list.len() && new_list[j].0 != kv implies old_list.contains(
                    #[trigger] new_list[j],
                ) by {
                    if j < i {
                        assert(new_list[j] == old_list[j]);
                    } else if j > i {
                        assert(new_list[j] == old_list[j - 1]);
                    }
                }
                lemma_same_finds(old_list, new_list, kv);
            }
            let mut v: Vec<(Vec<u8>, IndexEntry)> = Vec::new();
            std::mem::swap(&mut v, &mut self.entries);
            v.insert(i, (key, entry));
            self.entries = v;
        }
        r
    }

    /// Removes the entry under `key`, returning its lifetime.
    pub fn remove(&mut self, key: &[u8]) -> (r: Option<IndexEntry>)
        ensures
            sorted_keys(final(self)@),
            r == find(old(self)@, key@),
            find(final(self)@, key@) is None,
            forall|k: Seq<u8>| k != key@ ==> #[trigger] find(final(self)@, k) == find(old(self)@, k),
            final(self)@.len() == old(self)@.len() - if r is None {
                0int
            } else {
                1int
            },
    {
        proof {
            use_type_invariant(&*self);
        }
        let ghost old_list = self@;
        let r = self.get(key);
        let (i, found) = self.position(key);
        if found {
            let ghost new_list = old_list.remove(i as int);
            proof {
                lemma_find_at(old_list, i as int);
                old_list.remove_ensures(i as int);
                assert forall|a: int, b: int| 0 <= a < b < new_list.len() implies lex_lt(
                    #[trigger] new_list[a].0,
                    #[trigger] new_list[b].0,
                ) by {
                    if b < i {
                        assert(lex_lt(old_list[a].0, old_list[b].0));
                    } else if a < i {
                        assert(new_list[b] == old_list[b + 1]);
                        assert(lex_lt(old_list[a].0, old_list[b + 1].0));
                    } else {
                        assert(new_list[a] == old_list[a + 1]);
                        assert(new_list[b] == old_list[b + 1]);
                        assert(lex_lt(old_list[a + 1].0, old_list[b + 1].0));
                    }
                }
                assert(list_view(self.entries@.remove(i as int)) =~= new_list) by {
                    self.entries@.remove_ensures(i as int);
                }
                assert forall|j: int| 0 <= j < old_list.len() && old_list[j].0 != key@ implies new_list.contains(
                    #[trigger] old_list[j],
                ) by {
                    if j < i {
                        assert(new_list[j] == old_list[j]);
                    } else {
                        assert(j != i);
                        assert(new_list[j - 1] == old_list[j]);
                    }
                }
                assert forall|j: int| 0 <= j < new_list.len() && new_list[j].0 != key@ implies old_list.contains(
                    #[trigger] new_list[j],
                ) by {
                    if j < i {
                        assert(new_list[j] == old_list[j]);
                    } else {
                        assert(new_list[j] == old_list[j + 1]);
                    }
                }
                lemma_same_finds(old_list, new_list, key@);
                lemma_find_some(new_list, key@);
                if let Some(e) = find(new_list, key@) {
                    let j = choose|j: int| 0 <= j < new_list.len() && new_list[j] == (key@, e);
                    if j < i {
                        assert(lex_lt(old_list[j].0, old_list[i as int].0));
                        assert(new_list[j] == old_list[j]);
                    } else {
                        assert(new_list[j] == old_list[j + 1]);
                        assert(lex_lt(old_list[i as int].0, old_list[j + 1].0));
                    }
                    lemma_lex_irreflexive(key@);
                }
            }
            let mut v: Vec<(Vec<u8>, IndexEntry)> = Vec::new();
            std::mem::swap(&mut v, &mut self.entries);
            let _ = v.remove(i);
            self.entries = v;
        } else {
            proof {
                lemma_absent_between(old_list, key@, i as int);
            }
        }
        r
    }

    /// Marks the entry under `key` deleted at `ts`; nothing happens without one.
    pub fn mark_deleted(&mut self, key: &[u8], ts: u32)
        ensures
            sorted_keys(final(self)@),
            find(final(self)@, key@) == match find(old(self)@, key@) {
                Some(e) => Some(IndexEntry { deleted_ts: Some(ts), ..e }),
                None => None::<IndexEntry>,
            },
            forall|k: Seq<u8>| k != key@ ==> #[trigger] find(final(self)@, k) == find(old(self)@, k),
            final(self)@.len() == old(self)@.len(),
    {
        proof {
            use_type_invariant(&*self);
        }
        match self.get(key) {
            Some(e) => {
                let mut e2 = e;
                e2.mark_deleted(ts);
                let _ = self.insert(crate::bytes::bytes_to_vec(key), e2);
            },
            None => {},
        }
    }

    /// Removes every entry.
    pub fn clear(&mut self)
        ensures
            final(self)@ == Seq::<(Seq<u8>, IndexEntry)>::empty(),
    {
        self.entries = Vec::new();
        assert(list_view(self.entries@) =~= Seq::<(Seq<u8>, IndexEntry)>::empty());
    }

    /// The entries whose keys lie in `[lo, hi)`, in key order.
    pub fn range(&self, lo: &[u8], hi: &[u8]) -> (r: Vec<(Vec<u8>, IndexEntry)>)
        ensures
            list_view(r@) == range_of(self@, lo@, hi@),
    {
        let ghost s = self@;
        let mut out: Vec<(Vec<u8>, IndexEntry)> = Vec::new();
        let mut i: usize = 0;
        while i < self.entries.len()
            invariant
                i <= s.len(),
                s == self@,
                s.len() == self.entries@.len(),
                list_view(out@) == range_of(s.subrange(0, i as int), lo@, hi@),
            decreases s.len() - i,
        {
            let k = self.entries[i].0.as_slice();
            assert(s[i as int] == (k@, self.entries@[i as int].1));
            assert(s.subrange(0, i as int + 1).drop_last() =~= s.subrange(0, i as int));
            let below_lo = byte_order(k, lo) == -1;
            let below_hi = byte_order(k, hi) == -1;
            let ghost before = list_view(out@);
            if !below_lo && below_hi {
                out.push((crate::bytes::bytes_to_vec(k), self.entries[i].1));
                assert(list_view(out@) =~= before.push(s[i as int]));
            }
            assert(list_view(out@) =~= range_of(s.subrange(0, i as int + 1), lo@, hi@));
            i = i + 1;
        }
        assert(s.subrange(0, i as int) =~= s);
        out
    }

    /// Every entry, in key order.
    pub fn entries(&self) -> (r: Vec<(Vec<u8>, IndexEntry)>)
        ensures
            list_view(r@) == self@,
    {
        let ghost s = self@;
        let mut out: Vec<(Vec<u8>, IndexEntry)> = Vec::new();
        let mut i: usize = 0;
        while i < self.entries.len()
            invariant
                i <= s.len(),
                s == self@,
                s.len() == self.entries@.len(),
                list_view(out@) == s.subrange(0, i as int),
            decreases s.len() - i,
        {
            let ghost before = list_view(out@);
            out.push((crate::bytes::bytes_to_vec(self.entries[i].0.as_slice()), self.entries[i].1));
            assert(list_view(out@) =~= before.push(s[i as int]));
            assert(s.subrange(0, i as int + 1) =~= s.subrange(0, i as int).push(s[i as int]));
            i = i + 1;
        }
        assert(s.subrange(0, i as int) =~= s);
        out
    }

    /// Removes every entry deleted before `safe_ts`, returning how many went.
    pub fn remove_stale(&mut self, safe_ts: u32) -> (r: usize)
        ensures
            sorted_keys(final(self)@),
            final(self)@ == live_at(old(self)@, safe_ts),
            r == old(self)@.len() - final(self)@.len(),
    {
        proof {
            use_type_invariant(&*self);
        }
        let ghost s = self@;
        let mut kept: Vec<(Vec<u8>, IndexEntry)> = Vec::new();
        let mut removed: usize = 0;
        let mut i: usize = 0;
        while i < self.entries.len()
            invariant
                i <= s.len(),
                s == self@,
                s.len() == self.entries@.len(),
                list_view(kept@) == live_at(s.subrange(0, i as int), safe_ts),
                removed + kept@.len() == i,
            decreases s.len() - i,
        {
            assert(s.subrange(0, i as int + 1).drop_last() =~= s.subrange(0, i as int));
            let e = self.entries[i].1;
            assert(s[i as int].1 == e);
            let stale = match e.deleted_ts {
                Some(d) => d < safe_ts,
                None => false,
            };
            let ghost before = list_view(kept@);
            if stale {
                removed = removed + 1;
            } else {
                kept.push((crate::bytes::bytes_to_vec(self.entries[i].0.as_slice()), e));
                assert(list_view(kept@) =~= before.push(s[i as int]));
            }
            assert(list_view(kept@) =~= live_at(s.subrange(0, i as int + 1), safe_ts));
            i = i + 1;
        }
        assert(s.subrange(0, i as int) =~= s);
        proof {
            lemma_live_at_sorted(s, safe_ts);
        }
        self.entries = kept;
        removed
    }

    /// The number of deleted entries.
    pub fn deleted_entries(&self) -> (r: usize)
        ensures
            r == deleted_count(self@),
    {
        let ghost s = self@;
        let mut n: usize = 0;
        let mut i: usize = 0;
        while i < self.entries.len()
            invariant
                i <= s.len(),
                s == self@,
                s.len() == self.entries@.len(),
                n == deleted_count(s.subrange(0, i as int)),
                n <= i,
            decreases s.len() - i,
        {
            assert(s.subrange(0, i as int + 1).drop_last() =~= s.subrange(0, i as int));
            assert(s[i as int].1 == self.entries@[i as int].1);
            if self.entries[i].1.deleted_ts.is_some() {
                n = n + 1;
            }
            i = i + 1;
        }
        assert(s.subrange(0, i as int) =~= s);
        n
    }
}

} // verus!
