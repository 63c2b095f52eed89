//! An ordered map from byte keys to byte values, kept as a list sorted in byte
//! order, as an ordered tree would hold it. Range scans walk the keys in that order.
use vstd::prelude::*;
use crate::bytes::bytes_to_vec;
use crate::entry_map::{
    byte_order, sorted_keys, find, range_of, lemma_find_at, lemma_find_some, lemma_absent_between, lemma_same_finds,
    lemma_lex_irreflexive, lemma_lex_transitive,
};
use crate::key_codec::lex_lt;

verus! {

/// The entries of a byte map, key and value.
pub type ByteList = Seq<(Seq<u8>, Seq<u8>)>;

/// The mathematical form of a stored byte list.
pub open spec fn byte_list_view(v: Seq<(Vec<u8>, Vec<u8>)>) -> ByteList {
    v.map_values(|p: (Vec<u8>, Vec<u8>)| (p.0@, p.1@))
}

/// An ordered map from byte keys to byte values.
#[derive(Debug)]
pub struct ByteMap {
    entries: Vec<(Vec<u8>, Vec<u8>)>,
}

impl View for ByteMap {
    type V = ByteList;

    closed spec fn view(&self) -> ByteList {
        byte_list_view(self.entries@)
    }
}

impl ByteMap {
    /// The keys increase along the list.
    #[verifier::type_invariant]
    spec fn inv(&self) -> bool {
        sorted_keys(byte_list_view(self.entries@))
    }

    /// An empty map.
    pub fn new() -> (r: Self)
        ensures
            r@ == Seq::<(Seq<u8>, Seq<u8>)>::empty(),
    {
        let r = ByteMap { entries: Vec::new() };
        assert(byte_list_view(r.entries@) =~= Seq::<(Seq<u8>, Seq<u8>)>::empty());
        r
    }

    /// The number of entries.
    pub fn len(&self) -> (r: usize)
        ensures
            r == self@.len(),
    {
        self.entries.len()
    }

    /// The position at which `key` is, or would go: the first entry whose key is not
    /// below `key`.
    fn position(&self, key: &[u8]) -> (r: (usize, bool))
        ensures
            r.0 <= self@.len(),
            forall|i: int| 0 <= i < r.0 ==> lex_lt(#[trigger] self@[i].0, key@),
            r.0 < self@.len() ==> !lex_lt(self@[r.0 as int].0, key@),
            r.1 == (r.0 < self@.len() && self@[r.0 as int].0 == key@),
            r.0 < self@.len() && !r.1 ==> lex_lt(key@, self@[r.0 as int].0),
    {
        proof {
            use_type_invariant(self);
        }
        let ghost s = self@;
        let mut i: usize = 0;
        while i < self.entries.len()
            invariant
                i <= s.len(),
                s == self@,
                s.len() == self.entries@.len(),
                forall|j: int| 0 <= j < i ==> lex_lt(#[trigger] s[j].0, key@),
            decreases s.len() - i,
        {
            let o = byte_order(self.entries[i].0.as_slice(), key);
            assert(s[i as int].0 == self.entries@[i as int].0@);
            if o != -1 {
                if o == 0 {
                    return (i, true);
                } else {
                    proof {
                        lemma_lex_irreflexive(key@);
                        if s[i as int].0 == key@ {
                        }
                    }
                    return (i, false);
                }
            }
            i = i + 1;
        }
        (i, false)
    }

    /// A copy of the value stored under `key`.
    pub fn get(&self, key: &[u8]) -> (r: Option<Vec<u8>>)
        ensures
            match find(self@, key@) {
                Some(v) => r matches Some(x) && x@ == v,
                None => r is None,
            },
    {
        proof {
            use_type_invariant(self);
        }
        let (i, found) = self.position(key);
        if found {
            proof {
                lemma_find_at(self@, i as int);
            }
            assert(self@[i as int].1 == self.entries@[i as int].1@);
            Some(bytes_to_vec(self.entries[i].1.as_slice()))
        } else {
            proof {
                lemma_find_some(self@, key@);
                if let Some(e) = find(self@, key@) {
                    let j = choose|j: int| 0 <= j < self@.len() && self@[j] == (key@, e);
                    if j < i {
                        assert(lex_lt(self@[j].0, key@));
                        lemma_lex_irreflexive(key@);
                    } else if j > i {
                        assert(i < self@.len());
                        assert(lex_lt(self@[i as int].0, self@[j].0));
                        lemma_lex_irreflexive(key@);
                        if lex_lt(key@, self@[i as int].0) {
                            lemma_lex_transitive(key@, self@[i as int].0, key@);
                        }
                    }
                }
            }
            None
        }
    }

    /// Stores `value` under `key`, replacing what was there.
    pub fn insert(&mut self, key: Vec<u8>, value: Vec<u8>)
        ensures
            sorted_keys(final(self)@),
            find(final(self)@, key@) == Some(value@),
            forall|k: Seq<u8>| k != key@ ==> #[trigger] find(final(self)@, k) == find(old(self)@, k),
    {
        proof {
            use_type_invariant(&*self);
        }
        let ghost old_list = self@;
        let (i, found) = self.position(key.as_slice());
        let ghost kv = key@;
        let ghost vv = value@;
        if found {
            let ghost new_list = old_list.update(i as int, (kv, vv));
            proof {
                lemma_find_at(old_list, i as int);
                assert forall|a: int, b: int| 0 <= a < b < new_list.len() implies lex_lt(
                    #[trigger] new_list[a].0,
                    #[trigger] new_list[b].0,
                ) by {
                    assert(lex_lt(old_list[a].0, old_list[b].0));
                }
                assert(byte_list_view(self.entries@.update(i as int, (key, value))) =~= new_list);
                lemma_find_at(new_list, i as int);
                assert forall|j: int| 0 <= j < old_list.len() && old_list[j].0 != kv implies new_list.contains(
                    #[trigger] old_list[j],
                ) by {
                    assert(new_list[j] == old_list[j]);
                }
                assert forall|j: int| 0 <= j < new_list.len() && new_list[j].0 != kv implies old_list.contains(
                    #[trigger] new_list[j],
                ) by {
                    assert(new_list[j] == old_list[j]);
                }
                lemma_same_finds(old_list, new_list, kv);
            }
            let mut v: Vec<(Vec<u8>, Vec<u8>)> = Vec::new();
            std::mem::swap(&mut v, &mut self.entries);
            v.set(i, (key, value));
            self.entries = v;
        } else {
            let ghost new_list = old_list.insert(i as int, (kv, vv));
            proof {
                lemma_absent_between(old_list, kv, i as int);
                old_list.insert_ensures(i as int, (kv, vv));
                assert forall|a: int, b: int| 0 <= a < b < new_list.len() implies lex_lt(
                    #[trigger] new_list[a].0,
                    #[trigger] new_list[b].0,
                ) by {
                    if b < i {
                        assert(lex_lt(old_list[a].0, old_list[b].0));
                    } else if b == i {
                        assert(lex_lt(old_list[a].0, kv));
                    } else if a < i {
                        assert(new_list[b] == old_list[b - 1]);
                        assert(lex_lt(old_list[a].0, kv));
                        if b - 1 > i {
                            assert(lex_lt(old_list[i as int].0, old_list[b - 1].0));
                            lemma_lex_transitive(kv, old_list[i as int].0, old_list[b - 1].0);
                        }
                        lemma_lex_transitive(old_list[a].0, kv, old_list[b - 1].0);
                    } else if a == i {
                        assert(new_list[b] == old_list[b - 1]);
                        if b - 1 > i {
                            assert(lex_lt(old_list[i as int].0, old_list[b - 1].0));
                            lemma_lex_transitive(kv, old_list[i as int].0, old_list[b - 1].0);
                        }
                    } else {
                        assert(new_list[a] == old_list[a - 1]);
                        assert(new_list[b] == old_list[b - 1]);
                        assert(lex_lt(old_list[a - 1].0, old_list[b - 1].0));
                    }
                }
                assert(byte_list_view(self.entries@.insert(i as int, (key, value))) =~= new_list) by {
                    self.entries@.insert_ensures(i as int, (key, value));
                }
                lemma_find_at(new_list, i as int);
                assert forall|j: int| 0 <= j < old_list.len() && old_list[j].0 != kv implies new_list.contains(
                    #[trigger] old_list[j],
                ) by {
                    if j < i {
                        assert(new_list[j] == old_list[j]);
                    } else {
                        assert(new_list[j + 1] == old_list[j]);
                    }
                }
                assert forall|j: int| 0 <= j < new_list.len() && new_list[j].0 != kv implies old_list.contains(
                    #[trigger] new_list[j],
                ) by {
                    if j < i {
                        assert(new_list[j] == old_list[j]);
                    } else if j > i {
                        assert(new_list[j] == old_list[j - 1]);
                    }
                }
                lemma_same_finds(old_list, new_list, kv);
            }
            let mut v: Vec<(Vec<u8>, Vec<u8>)> = Vec::new();
            std::mem::swap(&mut v, &mut self.entries);
            v.insert(i, (key, value));
            self.entries = v;
        }
    }

    /// Removes the entry under `key`, if there is one.
    pub fn remove(&mut self, key: &[u8])
        ensures
            sorted_keys(final(self)@),
            find(final(self)@, key@) is None,
            forall|k: Seq<u8>| k != key@ ==> #[trigger] find(final(self)@, k) == find(old(self)@, k),
    {
        proof {
            use_type_invariant(&*self);
        }
        let ghost old_list = self@;
        let (i, found) = self.position(key);
        if found {
            let ghost new_list = old_list.remove(i as int);
            proof {
                lemma_find_at(old_list, i as int);
                old_list.remove_ensures(i as int);
                assert forall|a: int, b: int| 0 <= a < b < new_list.len() implies lex_lt(
                    #[trigger] new_list[a].0,
                    #[trigger] new_list[b].0,
                ) by {
                    if b < i {
                        assert(lex_lt(old_list[a].0, old_list[b].0));
                    } else if a < i {
                        assert(new_list[b] == old_list[b + 1]);
                        assert(lex_lt(old_list[a].0, old_list[b + 1].0));
                    } else {
                        assert(new_list[a] == old_list[a + 1]);
                        assert(new_list[b] == old_list[b + 1]);
                        assert(lex_lt(old_list[a + 1].0, old_list[b + 1].0));
                    }
                }
                assert(byte_list_view(self.entries@.remove(i as int)) =~= new_list) by {
                    self.entries@.remove_ensures(i as int);
                }
                assert forall|j: int| 0 <= j < old_list.len() && old_list[j].0 != key@ implies new_list.contains(
                    #[trigger] old_list[j],
                ) by {
                    if j < i {
                        assert(new_list[j] == old_list[j]);
                    } else {
                        assert(j != i);
                        assert(new_list[j - 1] == old_list[j]);
                    }
                }
                assert forall|j: int| 0 <= j < new_list.len() && new_list[j].0 != key@ implies old_list.contains(
                    #[trigger] new_list[j],
                ) by {
                    if j < i {
                        assert(new_list[j] == old_list[j]);
                    } else {
                        assert(new_list[j] == old_list[j + 1]);
                    }
                }
                lemma_same_finds(old_list, new_list, key@);
                lemma_find_some(new_list, key@);
                if let Some(e) = find(new_list, key@) {
                    let j = choose|j: int| 0 <= j < new_list.len() && new_list[j] == (key@, e);
                    if j < i {
                        assert(lex_lt(old_list[j].0, old_list[i as int].0));
                        assert(new_list[j] == old_list[j]);
                    } else {
                        assert(new_list[j] == old_list[j + 1]);
                        assert(lex_lt(old_list[i as int].0, old_list[j + 1].0));
                    }
                    lemma_lex_irreflexive(key@);
                }
            }
            let mut v: Vec<(Vec<u8>, Vec<u8>)> = Vec::new();
            std::mem::swap(&mut v, &mut self.entries);
            let _ = v.remove(i);
            self.entries = v;
        } else {
            proof {
                lemma_absent_between(old_list, key@, i as int);
            }
        }
    }

    /// Removes every entry.
    pub fn clear(&mut self)
        ensures
            final(self)@ == Seq::<(Seq<u8>, Seq<u8>)>::empty(),
    {
        self.entries = Vec::new();
        assert(byte_list_view(self.entries@) =~= Seq::<(Seq<u8>, Seq<u8>)>::empty());
    }

    /// The entries whose keys lie in `[lo, hi)`, in key order.
    pub fn range(&self, lo: &[u8], hi: &[u8]) -> (r: Vec<(Vec<u8>, Vec<u8>)>)
        ensures
            byte_list_view(r@) == range_of(self@, lo@, hi@),
    {
        let ghost s = self@;
        let mut out: Vec<(Vec<u8>, Vec<u8>)> = Vec::new();
        let mut i: usize = 0;
        while i < self.entries.len()
            invariant
                i <= s.len(),
                s == self@,
                s.len() == self.entries@.len(),
                byte_list_view(out@) == range_of(s.subrange(0, i as int), lo@, hi@),
            decreases s.len() - i,
        {
            let k = self.entries[i].0.as_slice();
            assert(s[i as int] == (k@, self.entries@[i as int].1@));
            assert(s.subrange(0, i as int + 1).drop_last() =~= s.subrange(0, i as int));
            let below_lo = byte_order(k, lo) == -1;
            let below_hi = byte_order(k, hi) == -1;
            let ghost before = byte_list_view(out@);
            if !below_lo && below_hi {
                out.push((bytes_to_vec(k), bytes_to_vec(self.entries[i].1.as_slice())));
                assert(byte_list_view(out@) =~= before.push(s[i as int]));
            }
            assert(byte_list_view(out@) =~= range_of(s.subrange(0, i as int + 1), lo@, hi@));
            i = i + 1;
        }
        assert(s.subrange(0, i as int) =~= s);
        out
    }

    /// Every entry, in key order.
    pub fn entries(&self) -> (r: Vec<(Vec<u8>, Vec<u8>)>)
        ensures
            byte_list_view(r@) == self@,
    {
        let ghost s = self@;
        let mut out: Vec<(Vec<u8>, Vec<u8>)> = Vec::new();
        let mut i: usize = 0;
        while i < self.entries.len()
            invariant
                i <= s.len(),
                s == self@,
                s.len() == self.entries@.len(),
                byte_list_view(out@) == s.subrange(0, i as int),
            decreases s.len() - i,
        {
            let ghost before = byte_list_view(out@);
            out.push((bytes_to_vec(self.entries[i].0.as_slice()), bytes_to_vec(self.entries[i].1.as_slice())));
            assert(byte_list_view(out@) =~= before.push(s[i as int]));
            assert(s.subrange(0, i as int + 1) =~= s.subrange(0, i as int).push(s[i as int]));
            i = i + 1;
        }
        assert(s.subrange(0, i as int) =~= s);
        out
    }
}

} // verus!
