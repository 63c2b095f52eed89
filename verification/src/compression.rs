//! Compression of index keys.
//!
//! - `Prefix`: keys that start with a common prefix are stored without it.
//! - `Dictionary`: frequent values are replaced by a four-byte id.
//! - `Delta`: keys that extend a base key are stored as their suffix.
use vstd::prelude::*;
use vstd::bytes::*;
use crate::bytes::{append_bytes, append_u32_le, copy_range, bytes_to_vec};
use crate::error::{StorageError, ErrorView, invalid_input};

verus! {

/// The result type of the storage layer.
pub type StorageResult<T> = Result<T, StorageError>;

/// The kind of compression applied to index keys.
#[derive(Debug, Clone, Copy, PartialEq, Eq, Structural)]
pub enum CompressionType {
    Disabled,
    Prefix,
    Dictionary,
    Delta,
}

/// Settings of an index compressor.
#[derive(Debug, Clone, Copy)]
pub struct CompressionConfig {
    pub compression_type: CompressionType,
    pub min_prefix_length: usize,
    pub dictionary_threshold: usize,
}

impl Default for CompressionConfig {
    fn default() -> (r: Self)
        ensures
            r.compression_type == CompressionType::Prefix,
            r.min_prefix_length == 4,
            r.dictionary_threshold == 100,
    {
        CompressionConfig {
            compression_type: CompressionType::Prefix,
            min_prefix_length: 4,
            dictionary_threshold: 100,
        }
    }
}

impl CompressionConfig {
    /// The default settings: prefix compression, minimum prefix 4, dictionary threshold 100.
    pub fn new() -> (r: Self)
        ensures
            r.compression_type == CompressionType::Prefix,
            r.min_prefix_length == 4,
            r.dictionary_threshold == 100,
    {
        Self::default()
    }

    pub fn with_compression_type(self, compression_type: CompressionType) -> (r: Self)
        ensures
            r == (CompressionConfig { compression_type, ..self }),
    {
        let mut c = self;
        c.compression_type = compression_type;
        c
    }

    pub fn with_min_prefix_length(self, min_prefix_length: usize) -> (r: Self)
        ensures
            r == (CompressionConfig { min_prefix_length, ..self }),
    {
        let mut c = self;
        c.min_prefix_length = min_prefix_length;
        c
    }

    pub fn with_dictionary_threshold(self, threshold: usize) -> (r: Self)
        ensures
            r == (CompressionConfig { dictionary_threshold: threshold, ..self }),
    {
        let mut c = self;
        c.dictionary_threshold = threshold;
        c
    }

    /// Compression is on unless its type is `Disabled`.
    pub fn is_enabled(&self) -> (r: bool)
        ensures
            r == (self.compression_type != CompressionType::Disabled),
    {
        self.compression_type != CompressionType::Disabled
    }
}

/// The byte strings held by a slice of vectors.
pub open spec fn byte_strings(s: Seq<Vec<u8>>) -> Seq<Seq<u8>> {
    s.map_values(|v: Vec<u8>| v@)
}

/// Whether `a` and `b` hold the same bytes.
pub fn bytes_eq(a: &[u8], b: &[u8]) -> (r: bool)
    ensures
        r == (a@ == b@),
{
    if a.len() != b.len() {
        return false;
    }
    let mut i: usize = 0;
    while i < a.len()
        invariant
            i <= a@.len(),
            a@.len() == b@.len(),
            forall|j: int| 0 <= j < i ==> a@[j] == b@[j],
        decreases a@.len() - i,
    {
        if a[i] != b[i] {
            return false;
        }
        i = i + 1;
    }
    assert(a@ =~= b@);
    true
}

/// Whether `key` starts with `prefix`.
pub fn starts_with(key: &[u8], prefix: &[u8]) -> (r: bool)
    ensures
        r == (prefix@.len() <= key@.len() && key@.subrange(0, prefix@.len() as int) == prefix@),
{
    if key.len() < prefix.len() {
        return false;
    }
    bytes_eq(vstd::slice::slice_subrange(key, 0, prefix.len()), prefix)
}

// ---------------------------------------------------------------------------
// Prefix compression
// ---------------------------------------------------------------------------
/// Every key has a byte at position `i` equal to the first key's.
pub open spec fn all_agree_at(keys: Seq<Seq<u8>>, i: int) -> bool {
    forall|j: int| 0 <= j < keys.len() ==> #[trigger] keys[j].len() > i && keys[j][i] == keys[0][i]
}

/// `l` is the length of the longest prefix of the first key shared by all keys.
pub open spec fn is_common_prefix_len(keys: Seq<Seq<u8>>, l: int) -> bool {
    &&& 0 <= l <= keys[0].len()
    &&& forall|i: int| 0 <= i < l ==> #[trigger] all_agree_at(keys, i)
    &&& l == keys[0].len() || !all_agree_at(keys, l)
}

/// `p` is the prefix learnt from `keys`: the longest prefix of the first key shared by
/// all keys, or empty when there are no keys.
pub open spec fn prefix_trained(keys: Seq<Seq<u8>>, p: Seq<u8>) -> bool {
    if keys.len() == 0 {
        p == Seq::<u8>::empty()
    } else {
        exists|l: int| is_common_prefix_len(keys, l) && p == keys[0].subrange(0, l)
    }
}

/// Removes the prefix that all trained keys share.
#[derive(Debug, Clone)]
pub struct PrefixCompressor {
    common_prefix: Vec<u8>,
}

impl View for PrefixCompressor {
    type V = Seq<u8>;

    closed spec fn view(&self) -> Seq<u8> {
        self.common_prefix@
    }
}

/// Compressing `key` against the common prefix `p`: keys that start with `p`
/// lose it behind the flag `0x01`, others are kept behind the flag `0x00`; with an
/// empty prefix, or a key shorter than it, the key is kept as it is.
pub open spec fn prefix_compress_spec(p: Seq<u8>, key: Seq<u8>) -> Seq<u8> {
    if p.len() == 0 || key.len() < p.len() {
        key
    } else if key.subrange(0, p.len() as int) == p {
        seq![1u8] + key.subrange(p.len() as int, key.len() as int)
    } else {
        seq![0u8] + key
    }
}

/// Decompressing against the common prefix `p`.
pub open spec fn prefix_decompress_spec(p: Seq<u8>, c: Seq<u8>) -> Result<Seq<u8>, ErrorView> {
    if c.len() == 0 {
        Ok(Seq::empty())
    } else if c[0] == 1 {
        Ok(p + c.subrange(1, c.len() as int))
    } else if c[0] == 0 {
        Ok(c.subrange(1, c.len() as int))
    } else {
        Err(ErrorView::InvalidInput("Invalid compression flag"@))
    }
}

impl PrefixCompressor {
    /// A compressor with an empty prefix.
    pub fn new() -> (r: Self)
        ensures
            r@ == Seq::<u8>::empty(),
    {
        PrefixCompressor { common_prefix: Vec::new() }
    }

    /// A compressor whose prefix is the longest prefix of the first key shared by all
    /// keys (empty when there are no keys).
    pub fn train(keys: &[Vec<u8>]) -> (r: StorageResult<Self>)
        ensures
            r matches Ok(c) && prefix_trained(byte_strings(keys@), c@),
    {
        if keys.len() == 0 {
            return Ok(Self::new());
        }
        let ghost ks = byte_strings(keys@);
        let first = &keys[0];
        let mut prefix_len: usize = 0;
        let mut i: usize = 0;
        while i < first.len()
            invariant_except_break
                i <= first@.len(),
                prefix_len == i,
                forall|x: int| 0 <= x < i ==> #[trigger] all_agree_at(ks, x),
            invariant
                ks == byte_strings(keys@),
                keys@.len() > 0,
                first@ == keys@[0]@,
            ensures
                is_common_prefix_len(ks, prefix_len as int),
            decreases first@.len() - i,
        {
            let byte = first[i];
            let mut all = true;
            let mut j: usize = 0;
            while j < keys.len()
                invariant
                    j <= keys@.len(),
                    i < first@.len(),
                    byte == first@[i as int],
                    ks == byte_strings(keys@),
                    keys@.len() > 0,
                    first@ == keys@[0]@,
                    all == (forall|y: int| 0 <= y < j ==> ks[y].len() > i && ks[y][i as int] == byte),
                decreases keys@.len() - j,
            {
                let k = &keys[j];
                assert(ks[j as int] == k@);
                if !(k.len() > i && k[i] == byte) {
                    all = false;
                }
                j = j + 1;
            }
            if all {
                prefix_len = i + 1;
                i = i + 1;
            } else {
                proof {
                    let y = choose|y: int| 0 <= y < keys@.len() && !(ks[y].len() > i && ks[y][i as int] == byte);
                    assert(ks[0] == first@);
                    assert(!(ks[y].len() > i && ks[y][i as int] == ks[0][i as int]));
                }
                break;
            }
        }
        let c = PrefixCompressor { common_prefix: copy_range(first.as_slice(), 0, prefix_len) };
        Ok(c)
    }

    /// The compressed form of `key`.
    pub fn compress(&self, key: &[u8]) -> (r: Vec<u8>)
        ensures
            r@ == prefix_compress_spec(self@, key@),
    {
        let p = self.common_prefix.as_slice();
        if p.len() == 0 || key.len() < p.len() {
            return bytes_to_vec(key);
        }
        if starts_with(key, p) {
            let mut result: Vec<u8> = Vec::new();
            result.push(1u8);
            append_bytes(&mut result, vstd::slice::slice_subrange(key, p.len(), key.len()));
            result
        } else {
            let mut result: Vec<u8> = Vec::new();
            result.push(0u8);
            append_bytes(&mut result, key);
            result
        }
    }

    /// The key that `compressed` stands for.
    pub fn decompress(&self, compressed: &[u8]) -> (r: StorageResult<Vec<u8>>)
        ensures
            crate::error::result_view(r) == prefix_decompress_spec(self@, compressed@),
    {
        if compressed.len() == 0 {
            return Ok(Vec::new());
        }
        if compressed[0] == 1 {
            let mut result = copy_range(self.common_prefix.as_slice(), 0, self.common_prefix.len());
            assert(result@ =~= self@);
            append_bytes(&mut result, vstd::slice::slice_subrange(compressed, 1, compressed.len()));
            Ok(result)
        } else if compressed[0] == 0 {
            Ok(copy_range(compressed, 1, compressed.len()))
        } else {
            Err(invalid_input("Invalid compression flag"))
        }
    }

    /// The common prefix.
    pub fn prefix(&self) -> (r: &[u8])
        ensures
            r@ == self@,
    {
        self.common_prefix.as_slice()
    }

    /// The length of the common prefix.
    pub fn prefix_len(&self) -> (r: usize)
        ensures
            r == self@.len(),
    {
        self.common_prefix.len()
    }
}

impl Default for PrefixCompressor {
    fn default() -> (r: Self)
        ensures
            r@ == Seq::<u8>::empty(),
    {
        Self::new()
    }
}

/// Decompressing a compressed key gives the key back, when the prefix is not empty and
/// the key is at least as long as it.
pub proof fn lemma_prefix_roundtrip(p: Seq<u8>, key: Seq<u8>)
    requires
        p.len() > 0,
        key.len() >= p.len(),
    ensures
        prefix_decompress_spec(p, prefix_compress_spec(p, key)) == Ok::<Seq<u8>, ErrorView>(key),
{
    let c = prefix_compress_spec(p, key);
    if key.subrange(0, p.len() as int) == p {
        assert(c.subrange(1, c.len() as int) =~= key.subrange(p.len() as int, key.len() as int));
        assert(p + key.subrange(p.len() as int, key.len() as int) =~= key);
    } else {
        assert(c.subrange(1, c.len() as int) =~= key);
    }
}


// ---------------------------------------------------------------------------
// Dictionary compression
// ---------------------------------------------------------------------------
/// How many times `v` occurs in `s`.
pub open spec fn occurrences(s: Seq<Seq<u8>>, v: Seq<u8>) -> nat
    decreases s.len(),
{
    if s.len() == 0 {
        0
    } else {
        occurrences(s.drop_last(), v) + if s.last() == v {
            1nat
        } else {
            0nat
        }
    }
}

/// The literal encoding `[0x00][len: u16][bytes]`, the length truncated to 16 bits.
pub open spec fn literal_spec(v: Seq<u8>) -> Seq<u8> {
    seq![0u8] + spec_u16_to_le_bytes(v.len() as u16) + v
}

/// Decoding a literal: the bytes counted by the 16-bit length at offset 1.
pub open spec fn literal_decode_spec(c: Seq<u8>, short_msg: Seq<char>) -> Result<Seq<u8>, ErrorView> {
    if c.len() < 3 {
        Err(ErrorView::InvalidInput(short_msg))
    } else if c.len() < 3 + spec_u16_from_le_bytes(c.subrange(1, 3)) {
        Err(ErrorView::InvalidInput("Compressed data truncated"@))
    } else {
        Ok(c.subrange(3, 3 + spec_u16_from_le_bytes(c.subrange(1, 3))))
    }
}

/// `d` is the dictionary learnt from `values`: every value that occurs at least
/// `threshold` times, each once.
pub open spec fn dictionary_trained(values: Seq<Seq<u8>>, threshold: usize, d: Seq<Seq<u8>>) -> bool {
    &&& d.no_duplicates()
    &&& forall|v: Seq<u8>| d.contains(v) <==> (values.contains(v) && occurrences(values, v) >= threshold)
}

/// Replaces values that were frequent in training by their id in the dictionary.
///
/// The dictionary holds each frequent value once; a value's id is its position.
#[derive(Debug)]
pub struct DictionaryCompressor {
    reverse_dict: Vec<Vec<u8>>,
}

impl DictionaryCompressor {
    /// Each value occurs once in the dictionary.
    #[verifier::type_invariant]
    spec fn inv(&self) -> bool {
        byte_strings(self.reverse_dict@).no_duplicates()
    }
}

impl View for DictionaryCompressor {
    type V = Seq<Seq<u8>>;

    closed spec fn view(&self) -> Seq<Seq<u8>> {
        byte_strings(self.reverse_dict@)
    }
}

/// Compressing `v` with the dictionary `d`: `[0x01][id: u32]` for the first entry equal
/// to `v`, otherwise the literal encoding.
pub open spec fn dictionary_compress_spec(d: Seq<Seq<u8>>, v: Seq<u8>) -> Seq<u8> {
    if d.contains(v) {
        seq![1u8] + spec_u32_to_le_bytes(d.index_of(v) as u32)
    } else {
        literal_spec(v)
    }
}

/// Decompressing with the dictionary `d`.
pub open spec fn dictionary_decompress_spec(d: Seq<Seq<u8>>, c: Seq<u8>) -> Result<Seq<u8>, ErrorView> {
    if c.len() == 0 {
        Ok(Seq::empty())
    } else if c[0] == 1 {
        if c.len() < 5 {
            Err(ErrorView::InvalidInput("Invalid dictionary compressed data"@))
        } else if spec_u32_from_le_bytes(c.subrange(1, 5)) < d.len() {
            Ok(d[spec_u32_from_le_bytes(c.subrange(1, 5)) as int])
        } else {
            Err(ErrorView::InvalidInput("Dictionary ID not found"@))
        }
    } else if c[0] == 0 {
        literal_decode_spec(c, "Invalid literal compressed data"@)
    } else {
        Err(ErrorView::InvalidInput("Invalid compression flag"@))
    }
}

fn count_occurrences(values: &[Vec<u8>], v: &[u8]) -> (r: usize)
    ensures
        r == occurrences(byte_strings(values@), v@),
{
    let ghost s = byte_strings(values@);
    let mut count: usize = 0;
    let mut i: usize = 0;
    while i < values.len()
        invariant
            i <= values@.len(),
            s == byte_strings(values@),
            count == occurrences(s.subrange(0, i as int), v@),
            count <= i,
        decreases values@.len() - i,
    {
        assert(s.subrange(0, i as int + 1).drop_last() =~= s.subrange(0, i as int));
        if bytes_eq(values[i].as_slice(), v) {
            count = count + 1;
        }
        i = i + 1;
    }
    assert(s.subrange(0, i as int) =~= s);
    count
}

/// The position of the first entry of `d` equal to `v`.
fn find_entry(d: &Vec<Vec<u8>>, v: &[u8]) -> (r: Option<usize>)
    requires
        byte_strings(d@).no_duplicates(),
    ensures
        match r {
            Some(i) => byte_strings(d@).contains(v@) && i == byte_strings(d@).index_of(v@),
            None => !byte_strings(d@).contains(v@),
        },
{
    let ghost s = byte_strings(d@);
    let mut i: usize = 0;
    while i < d.len()
        invariant
            i <= d@.len(),
            s == byte_strings(d@),
            s.no_duplicates(),
            forall|j: int| 0 <= j < i ==> s[j] != v@,
        decreases d@.len() - i,
    {
        if bytes_eq(d[i].as_slice(), v) {
            proof {
                assert(s[i as int] == v@);
                assert(s.contains(v@));
                let k = s.index_of(v@);
                assert(s[k] == v@);
                if k != i as int {
                    assert(s[k] != s[i as int]);
                }
            }
            return Some(i);
        }
        i = i + 1;
    }
    None
}

/// Decoding the literal encoding at the start of `c`.
fn decode_literal(c: &[u8], short_msg: &str) -> (r: StorageResult<Vec<u8>>)
    requires
        c@.len() > 0,
    ensures
        crate::error::result_view(r) == literal_decode_spec(c@, short_msg@),
{
    if c.len() < 3 {
        return Err(invalid_input(short_msg));
    }
    let len = u16_from_le_bytes(vstd::slice::slice_subrange(c, 1, 3)) as usize;
    if c.len() < 3 + len {
        return Err(invalid_input("Compressed data truncated"));
    }
    Ok(copy_range(c, 3, 3 + len))
}

/// Appends the literal encoding of `v`.
fn encode_literal(v: &[u8]) -> (r: Vec<u8>)
    ensures
        r@ == literal_spec(v@),
{
    let mut result: Vec<u8> = Vec::new();
    result.push(0u8);
    let len = u16_to_le_bytes(v.len() as u16);
    append_bytes(&mut result, len.as_slice());
    append_bytes(&mut result, v);
    assert(result@ =~= literal_spec(v@));
    result
}

impl DictionaryCompressor {
    /// A compressor with an empty dictionary.
    pub fn new() -> (r: Self)
        ensures
            r@ == Seq::<Seq<u8>>::empty(),
    {
        let d: Vec<Vec<u8>> = Vec::new();
        assert(byte_strings(d@) =~= Seq::<Seq<u8>>::empty());
        DictionaryCompressor { reverse_dict: d }
    }

    /// A dictionary of every value that occurs at least `threshold` times in `values`, each
    /// once. Ids are given in order of first occurrence.
    pub fn train(values: &[Vec<u8>], threshold: usize) -> (r: Self)
        requires
            values@.len() <= u32::MAX,
        ensures
            dictionary_trained(byte_strings(values@), threshold, r@),
    {
        let ghost s = byte_strings(values@);
        let mut dict: Vec<Vec<u8>> = Vec::new();
        let mut i: usize = 0;
        while i < values.len()
            invariant
                i <= values@.len(),
                s == byte_strings(values@),
                byte_strings(dict@).no_duplicates(),
                forall|v: Seq<u8>|
                    byte_strings(dict@).contains(v) <==> (s.subrange(0, i as int).contains(v) && occurrences(s, v)
                        >= threshold),
            decreases values@.len() - i,
        {
            let value = values[i].as_slice();
            assert(s[i as int] == value@);
            let ghost old_d = byte_strings(dict@);
            let seen = find_entry_in_prefix(values, i, value);
            let mut pushed = false;
            if !seen {
                let count = count_occurrences(values, value);
                if count >= threshold {
                    dict.push(copy_range(value, 0, value.len()));
                    pushed = true;
                    proof {
                        assert(value@.subrange(0, value@.len() as int) =~= value@);
                        assert(byte_strings(dict@) =~= old_d.push(value@));
                        assert(!old_d.contains(value@));
                        assert forall|a: int, b: int| 0 <= a < b < byte_strings(dict@).len() implies
                            byte_strings(dict@)[a] != byte_strings(dict@)[b] by {
                            if b == old_d.len() {
                                assert(old_d[a] == byte_strings(dict@)[a]);
                                assert(old_d.contains(old_d[a]));
                            }
                        }
                    }
                }
            }
            proof {
                let t = s.subrange(0, i as int + 1);
                let pre = s.subrange(0, i as int);
                let nd = byte_strings(dict@);
                assert(t =~= pre.push(value@));
                if pushed {
                    assert(nd =~= old_d.push(value@));
                } else {
                    assert(nd =~= old_d);
                }
                assert forall|v: Seq<u8>| nd.contains(v) <==> (t.contains(v) && occurrences(s, v) >= threshold) by {
                    if v == value@ {
                        assert(t[i as int] == v);
                        if pushed {
                            assert(nd[old_d.len() as int] == v);
                        }
                    } else {
                        if t.contains(v) {
                            let k = choose|k: int| 0 <= k < t.len() && t[k] == v;
                            assert(pre[k] == v);
                        }
                        if pre.contains(v) {
                            let k = choose|k: int| 0 <= k < pre.len() && pre[k] == v;
                            assert(t[k] == v);
                        }
                        if nd.contains(v) {
                            let k = choose|k: int| 0 <= k < nd.len() && nd[k] == v;
                            assert(old_d[k] == v);
                        }
                        if old_d.contains(v) {
                            let k = choose|k: int| 0 <= k < old_d.len() && old_d[k] == v;
                            assert(nd[k] == v);
                        }
                    }
                }
            }
            i = i + 1;
        }
        assert(s.subrange(0, i as int) =~= s);
        DictionaryCompressor { reverse_dict: dict }
    }

    /// The compressed form of `value`.
    pub fn compress(&self, value: &[u8]) -> (r: Vec<u8>)
        ensures
            r@ == dictionary_compress_spec(self@, value@),
    {
        proof {
            use_type_invariant(self);
        }
        match find_entry(&self.reverse_dict, value) {
            Some(id) => {
                let mut result: Vec<u8> = Vec::new();
                result.push(1u8);
                append_u32_le(&mut result, id as u32);
                assert(result@ =~= seq![1u8] + spec_u32_to_le_bytes(id as u32));
                result
            },
            None => encode_literal(value),
        }
    }

    /// The value that `compressed` stands for.
    pub fn decompress(&self, compressed: &[u8]) -> (r: StorageResult<Vec<u8>>)
        ensures
            crate::error::result_view(r) == dictionary_decompress_spec(self@, compressed@),
    {
        if compressed.len() == 0 {
            return Ok(Vec::new());
        }
        if compressed[0] == 1 {
            if compressed.len() < 5 {
                return Err(invalid_input("Invalid dictionary compressed data"));
            }
            let id = u32_from_le_bytes(vstd::slice::slice_subrange(compressed, 1, 5)) as usize;
            if id < self.reverse_dict.len() {
                let e = &self.reverse_dict[id];
                let r = copy_range(e.as_slice(), 0, e.len());
                assert(r@ =~= e@);
                Ok(r)
            } else {
                Err(invalid_input("Dictionary ID not found"))
            }
        } else if compressed[0] == 0 {
            decode_literal(compressed, "Invalid literal compressed data")
        } else {
            Err(invalid_input("Invalid compression flag"))
        }
    }

    /// The number of dictionary entries.
    pub fn dictionary_size(&self) -> (r: usize)
        ensures
            r == self@.len(),
    {
        self.reverse_dict.len()
    }
}

/// Whether `v` occurs among the first `i` values.
fn find_entry_in_prefix(values: &[Vec<u8>], i: usize, v: &[u8]) -> (r: bool)
    requires
        i <= values@.len(),
    ensures
        r == byte_strings(values@).subrange(0, i as int).contains(v@),
{
    let ghost s = byte_strings(values@).subrange(0, i as int);
    let mut j: usize = 0;
    while j < i
        invariant
            j <= i <= values@.len(),
            s == byte_strings(values@).subrange(0, i as int),
            forall|k: int| 0 <= k < j ==> s[k] != v@,
        decreases i - j,
    {
        if bytes_eq(values[j].as_slice(), v) {
            assert(s[j as int] == v@);
            return true;
        }
        j = j + 1;
    }
    false
}

impl Clone for DictionaryCompressor {
    fn clone(&self) -> (r: Self)
        ensures
            r@ == self@,
    {
        proof {
            use_type_invariant(self);
        }
        let mut d: Vec<Vec<u8>> = Vec::new();
        let mut i: usize = 0;
        while i < self.reverse_dict.len()
            invariant
                i <= self.reverse_dict@.len(),
                byte_strings(self.reverse_dict@).no_duplicates(),
                byte_strings(d@) =~= byte_strings(self.reverse_dict@).subrange(0, i as int),
            decreases self.reverse_dict@.len() - i,
        {
            let e = &self.reverse_dict[i];
            let ghost old_d = byte_strings(d@);
            d.push(copy_range(e.as_slice(), 0, e.len()));
            proof {
                assert(e@.subrange(0, e@.len() as int) =~= e@);
                assert(byte_strings(d@) =~= old_d.push(e@));
                assert(byte_strings(self.reverse_dict@)[i as int] == e@);
                assert(byte_strings(self.reverse_dict@).subrange(0, i as int + 1) =~= byte_strings(
                    self.reverse_dict@,
                ).subrange(0, i as int).push(e@));
            }
            i = i + 1;
        }
        assert(byte_strings(self.reverse_dict@).subrange(0, i as int) =~= byte_strings(self.reverse_dict@));
        DictionaryCompressor { reverse_dict: d }
    }
}

impl Default for DictionaryCompressor {
    fn default() -> (r: Self)
        ensures
            r@ == Seq::<Seq<u8>>::empty(),
    {
        Self::new()
    }
}

proof fn lemma_literal_roundtrip(v: Seq<u8>, msg: Seq<char>)
    requires
        v.len() <= u16::MAX,
    ensures
        literal_decode_spec(literal_spec(v), msg) == Ok::<Seq<u8>, ErrorView>(v),
{
    lemma_auto_spec_u16_to_from_le_bytes();
    let c = literal_spec(v);
    assert(c.subrange(1, 3) =~= spec_u16_to_le_bytes(v.len() as u16));
    assert(c.subrange(3, 3 + v.len() as int) =~= v);
}

/// Decompressing a compressed value gives the value back, when the value is short
/// enough for the 16-bit literal length and the dictionary holds fewer than 2^32 entries.
pub proof fn lemma_dictionary_roundtrip(d: Seq<Seq<u8>>, v: Seq<u8>)
    requires
        v.len() <= u16::MAX,
        d.len() <= u32::MAX,
    ensures
        dictionary_decompress_spec(d, dictionary_compress_spec(d, v)) == Ok::<Seq<u8>, ErrorView>(v),
{
    lemma_auto_spec_u32_to_from_le_bytes();
    let c = dictionary_compress_spec(d, v);
    if d.contains(v) {
        let i = d.index_of(v);
        assert(c.subrange(1, 5) =~= spec_u32_to_le_bytes(i as u32));
    } else {
        lemma_literal_roundtrip(v, "Invalid literal compressed data"@);
    }
}

// ---------------------------------------------------------------------------
// Delta compression
// ---------------------------------------------------------------------------
/// Stores keys that extend a base key as their suffix.
#[derive(Debug, Clone)]
pub struct DeltaCompressor {
    base: Vec<u8>,
}

impl View for DeltaCompressor {
    type V = Seq<u8>;

    closed spec fn view(&self) -> Seq<u8> {
        self.base@
    }
}

/// Compressing `key` against the base `b`: a key that starts with a non-empty base is
/// `[0x01][start: u8][suffix_len: u8][suffix]` (both lengths truncated to 8 bits), any
/// other key is the literal encoding.
pub open spec fn delta_compress_spec(b: Seq<u8>, key: Seq<u8>) -> Seq<u8> {
    if b.len() > 0 && b.len() <= key.len() && key.subrange(0, b.len() as int) == b {
        seq![1u8, b.len() as u8, (key.len() - b.len()) as u8] + key.subrange(b.len() as int, key.len() as int)
    } else {
        literal_spec(key)
    }
}

/// The base, padded with zeros to at least `n` bytes.
pub open spec fn padded(b: Seq<u8>, n: int) -> Seq<u8> {
    if n > b.len() {
        b + Seq::new((n - b.len()) as nat, |i: int| 0u8)
    } else {
        b
    }
}

/// Decompressing against the base `b`: a delta overwrites `suffix_len` bytes of the
/// (zero-padded) base from `start`.
pub open spec fn delta_decompress_spec(b: Seq<u8>, c: Seq<u8>) -> Result<Seq<u8>, ErrorView> {
    if c.len() == 0 {
        Ok(Seq::empty())
    } else if c[0] == 1 {
        if c.len() < 3 {
            Err(ErrorView::InvalidInput("Invalid delta compressed data"@))
        } else if c.len() < 3 + c[2] {
            Err(ErrorView::InvalidInput("Delta data truncated"@))
        } else {
            let start = c[1] as int;
            let n = c[2] as int;
            let r = padded(b, start + n);
            Ok(r.subrange(0, start) + c.subrange(3, 3 + n) + r.subrange(start + n, r.len() as int))
        }
    } else if c[0] == 0 {
        literal_decode_spec(c, "Invalid literal data"@)
    } else {
        Err(ErrorView::InvalidInput("Invalid compression flag"@))
    }
}

impl DeltaCompressor {
    /// A compressor with an empty base.
    pub fn new() -> (r: Self)
        ensures
            r@ == Seq::<u8>::empty(),
    {
        DeltaCompressor { base: Vec::new() }
    }

    /// A compressor with the given base.
    pub fn with_base(base: Vec<u8>) -> (r: Self)
        ensures
            r@ == base@,
    {
        DeltaCompressor { base }
    }

    /// The compressed form of `key`.
    pub fn compress(&self, key: &[u8]) -> (r: Vec<u8>)
        ensures
            r@ == delta_compress_spec(self@, key@),
    {
        let base = self.base.as_slice();
        if base.len() == 0 {
            return encode_literal(key);
        }
        let common_len = if key.len() < base.len() {
            key.len()
        } else {
            base.len()
        };
        let mut delta_start: usize = 0;
        let mut i: usize = 0;
        while i < common_len
            invariant_except_break
                i <= common_len,
                delta_start == i,
                forall|j: int| 0 <= j < i ==> key@[j] == base@[j],
            invariant
                common_len <= key@.len(),
                common_len <= base@.len(),
                common_len == key@.len() || common_len == base@.len(),
            ensures
                delta_start <= common_len,
                forall|j: int| 0 <= j < delta_start ==> key@[j] == base@[j],
                delta_start < common_len ==> key@[delta_start as int] != base@[delta_start as int],
            decreases common_len - i,
        {
            if key[i] != base[i] {
                delta_start = i;
                break;
            }
            delta_start = i + 1;
            i = i + 1;
        }
        if delta_start == common_len && key.len() >= base.len() {
            assert(key@.subrange(0, base@.len() as int) =~= base@);
            let mut result: Vec<u8> = Vec::new();
            result.push(1u8);
            result.push(delta_start as u8);
            result.push((key.len() - delta_start) as u8);
            append_bytes(&mut result, vstd::slice::slice_subrange(key, delta_start, key.len()));
            assert(result@ =~= delta_compress_spec(self@, key@));
            result
        } else {
            proof {
                if base@.len() <= key@.len() && key@.subrange(0, base@.len() as int) == base@ {
                    assert(key@[delta_start as int] == key@.subrange(0, base@.len() as int)[delta_start as int]);
                }
            }
            encode_literal(key)
        }
    }

    /// The key that `compressed` stands for.
    pub fn decompress(&self, compressed: &[u8]) -> (r: StorageResult<Vec<u8>>)
        ensures
            crate::error::result_view(r) == delta_decompress_spec(self@, compressed@),
    {
        if compressed.len() == 0 {
            return Ok(Vec::new());
        }
        if compressed[0] == 1 {
            if compressed.len() < 3 {
                return Err(invalid_input("Invalid delta compressed data"));
            }
            let delta_start = compressed[1] as usize;
            let suffix_len = compressed[2] as usize;
            if compressed.len() < 3 + suffix_len {
                return Err(invalid_input("Delta data truncated"));
            }
            let mut result = copy_range(self.base.as_slice(), 0, self.base.len());
            assert(result@ =~= self@);
            if delta_start + suffix_len > result.len() {
                let ghost before = result@;
                result.resize(delta_start + suffix_len, 0u8);
                assert(result@ =~= padded(self@, delta_start + suffix_len)) by {
                    assert forall|j: int| before.len() <= j < result@.len() implies result@[j] == 0u8 by {
                        assert(vstd::pervasive::cloned::<u8>(0u8, result@[j]));
                    }
                }
            }
            let ghost r0 = result@;
            assert(r0 == padded(self@, delta_start + suffix_len));
            let mut k: usize = 0;
            while k < suffix_len
                invariant
                    k <= suffix_len,
                    delta_start <= 255,
                    suffix_len <= 255,
                    delta_start + suffix_len <= result@.len(),
                    3 + suffix_len <= compressed@.len(),
                    result@.len() == r0.len(),
                    forall|j: int| 0 <= j < delta_start ==> result@[j] == r0[j],
                    forall|j: int| delta_start + suffix_len <= j < r0.len() ==> result@[j] == r0[j],
                    forall|j: int| delta_start <= j < delta_start + k ==> #[trigger] result@[j] == compressed@[3 + j - delta_start],
                    forall|j: int| delta_start + k <= j < delta_start + suffix_len ==> #[trigger] result@[j] == r0[j],
                decreases suffix_len - k,
            {
                result.set(delta_start + k, compressed[3 + k]);
                k = k + 1;
            }
            assert(result@ =~= r0.subrange(0, delta_start as int) + compressed@.subrange(
                3,
                3 + suffix_len as int,
            ) + r0.subrange(delta_start + suffix_len, r0.len() as int));
            Ok(result)
        } else if compressed[0] == 0 {
            decode_literal(compressed, "Invalid literal data")
        } else {
            Err(invalid_input("Invalid compression flag"))
        }
    }

    /// Replaces the base.
    pub fn set_base(&mut self, base: Vec<u8>)
        ensures
            final(self)@ == base@,
    {
        self.base = base;
    }

    /// The base.
    pub fn base(&self) -> (r: &[u8])
        ensures
            r@ == self@,
    {
        self.base.as_slice()
    }
}

impl Default for DeltaCompressor {
    fn default() -> (r: Self)
        ensures
            r@ == Seq::<u8>::empty(),
    {
        Self::new()
    }
}

/// Decompressing a compressed key gives the key back, when the lengths fit the
/// encoding: the base and the suffix in 8 bits, a literal key in 16 bits.
pub proof fn lemma_delta_roundtrip(b: Seq<u8>, key: Seq<u8>)
    requires
        key.len() <= u16::MAX,
        b.len() <= u8::MAX,
        key.len() - b.len() <= u8::MAX,
    ensures
        delta_decompress_spec(b, delta_compress_spec(b, key)) == Ok::<Seq<u8>, ErrorView>(key),
{
    let c = delta_compress_spec(b, key);
    if b.len() > 0 && b.len() <= key.len() && key.subrange(0, b.len() as int) == b {
        let n = key.len() - b.len();
        assert(c[1] == b.len() as u8);
        assert(c[2] == n as u8);
        let r = padded(b, key.len() as int);
        assert(c.subrange(3, 3 + n) =~= key.subrange(b.len() as int, key.len() as int));
        assert(r.subrange(0, b.len() as int) + c.subrange(3, 3 + n) + r.subrange(key.len() as int, r.len() as int)
            =~= key);
    } else {
        lemma_literal_roundtrip(key, "Invalid literal data"@);
    }
}


// ---------------------------------------------------------------------------
// Index compressor
// ---------------------------------------------------------------------------
/// Compresses index keys as its configuration says, once trained.
#[derive(Debug, Clone)]
pub struct IndexCompressor {
    config: CompressionConfig,
    prefix_compressor: Option<PrefixCompressor>,
    dictionary_compressor: Option<DictionaryCompressor>,
}

/// What an index compressor holds: its settings and the models it has learnt.
pub struct IndexCompressorView {
    pub config: CompressionConfig,
    pub prefix: Option<Seq<u8>>,
    pub dictionary: Option<Seq<Seq<u8>>>,
}

impl View for IndexCompressor {
    type V = IndexCompressorView;

    closed spec fn view(&self) -> IndexCompressorView {
        IndexCompressorView {
            config: self.config,
            prefix: match self.prefix_compressor {
                Some(c) => Some(c@),
                None => None,
            },
            dictionary: match self.dictionary_compressor {
                Some(c) => Some(c@),
                None => None,
            },
        }
    }
}

/// Compressing a key as the compressor `v` does: with the learnt model of its
/// configured kind, or not at all when there is none.
pub open spec fn index_compress_spec(v: IndexCompressorView, key: Seq<u8>) -> Seq<u8> {
    match v.config.compression_type {
        CompressionType::Prefix => match v.prefix {
            Some(p) => prefix_compress_spec(p, key),
            None => key,
        },
        CompressionType::Dictionary => match v.dictionary {
            Some(d) => dictionary_compress_spec(d, key),
            None => key,
        },
        _ => key,
    }
}

/// Decompressing as the compressor `v` does.
pub open spec fn index_decompress_spec(v: IndexCompressorView, c: Seq<u8>) -> Result<Seq<u8>, ErrorView> {
    match v.config.compression_type {
        CompressionType::Prefix => match v.prefix {
            Some(p) => prefix_decompress_spec(p, c),
            None => Ok(c),
        },
        CompressionType::Dictionary => match v.dictionary {
            Some(d) => dictionary_decompress_spec(d, c),
            None => Ok(c),
        },
        _ => Ok(c),
    }
}

impl IndexCompressor {
    /// An untrained compressor with the given settings.
    pub fn new(config: CompressionConfig) -> (r: Self)
        ensures
            r@.config == config,
            r@.prefix is None,
            r@.dictionary is None,
    {
        IndexCompressor { config, prefix_compressor: None, dictionary_compressor: None }
    }

    /// An untrained compressor with the default settings.
    pub fn with_default() -> (r: Self)
        ensures
            r@.config.compression_type == CompressionType::Prefix,
            r@.config.min_prefix_length == 4,
            r@.config.dictionary_threshold == 100,
            r@.prefix is None,
            r@.dictionary is None,
    {
        Self::new(CompressionConfig::default())
    }

    /// An untrained compressor that leaves keys as they are.
    pub fn disabled() -> (r: Self)
        ensures
            r@.config.compression_type == CompressionType::Disabled,
            r@.config.min_prefix_length == 4,
            r@.config.dictionary_threshold == 100,
            r@.prefix is None,
            r@.dictionary is None,
    {
        Self::new(CompressionConfig { compression_type: CompressionType::Disabled, ..CompressionConfig::default() })
    }

    /// Learns the model of the configured kind from `keys`; other kinds learn nothing.
    pub fn train_keys(&mut self, keys: &[Vec<u8>]) -> (r: StorageResult<()>)
        requires
            old(self)@.config.compression_type == CompressionType::Dictionary ==> keys@.len() <= u32::MAX,
        ensures
            r is Ok,
            final(self)@.config == old(self)@.config,
            match old(self)@.config.compression_type {
                CompressionType::Prefix => {
                    &&& final(self)@.dictionary == old(self)@.dictionary
                    &&& final(self)@.prefix matches Some(p) && prefix_trained(byte_strings(keys@), p)
                },
                CompressionType::Dictionary => {
                    &&& final(self)@.prefix == old(self)@.prefix
                    &&& final(self)@.dictionary matches Some(d) && dictionary_trained(
                        byte_strings(keys@),
                        old(self)@.config.dictionary_threshold,
                        d,
                    )
                },
                _ => final(self)@ == old(self)@,
            },
    {
        match self.config.compression_type {
            CompressionType::Prefix => {
                let c = PrefixCompressor::train(keys)?;
                self.prefix_compressor = Some(c);
            },
            CompressionType::Dictionary => {
                let c = DictionaryCompressor::train(keys, self.config.dictionary_threshold);
                self.dictionary_compressor = Some(c);
            },
            _ => {},
        }
        Ok(())
    }

    /// The compressed form of `key`.
    pub fn compress_key(&self, key: &[u8]) -> (r: Vec<u8>)
        ensures
            r@ == index_compress_spec(self@, key@),
    {
        match self.config.compression_type {
            CompressionType::Prefix => match &self.prefix_compressor {
                Some(c) => c.compress(key),
                None => bytes_to_vec(key),
            },
            CompressionType::Dictionary => match &self.dictionary_compressor {
                Some(c) => c.compress(key),
                None => bytes_to_vec(key),
            },
            _ => bytes_to_vec(key),
        }
    }

    /// The key that `compressed` stands for.
    pub fn decompress_key(&self, compressed: &[u8]) -> (r: StorageResult<Vec<u8>>)
        ensures
            crate::error::result_view(r) == index_decompress_spec(self@, compressed@),
    {
        match self.config.compression_type {
            CompressionType::Prefix => match &self.prefix_compressor {
                Some(c) => c.decompress(compressed),
                None => Ok(bytes_to_vec(compressed)),
            },
            CompressionType::Dictionary => match &self.dictionary_compressor {
                Some(c) => c.decompress(compressed),
                None => Ok(bytes_to_vec(compressed)),
            },
            _ => Ok(bytes_to_vec(compressed)),
        }
    }

    /// Whether compression is on.
    pub fn is_enabled(&self) -> (r: bool)
        ensures
            r == (self@.config.compression_type != CompressionType::Disabled),
    {
        self.config.is_enabled()
    }

    /// The settings.
    pub fn config(&self) -> (r: &CompressionConfig)
        ensures
            *r == self@.config,
    {
        &self.config
    }
}

impl Default for IndexCompressor {
    fn default() -> (r: Self)
        ensures
            r@.config.compression_type == CompressionType::Prefix,
            r@.config.min_prefix_length == 4,
            r@.config.dictionary_threshold == 100,
            r@.prefix is None,
            r@.dictionary is None,
    {
        Self::with_default()
    }
}

/// An index compressor gives back every key it compressed, as far as its encoding can
/// hold it: a learnt prefix must be non-empty and no longer than the key, a dictionary
/// literal must fit a 16-bit length.
pub proof fn lemma_index_compressor_roundtrip(v: IndexCompressorView, key: Seq<u8>)
    requires
        v.config.compression_type == CompressionType::Prefix ==> (v.prefix matches Some(p) ==> p.len() > 0
            && key.len() >= p.len()),
        v.config.compression_type == CompressionType::Dictionary ==> (v.dictionary matches Some(d) ==> key.len()
            <= u16::MAX && d.len() <= u32::MAX),
    ensures
        index_decompress_spec(v, index_compress_spec(v, key)) == Ok::<Seq<u8>, ErrorView>(key),
{
    match v.config.compression_type {
        CompressionType::Prefix => if let Some(p) = v.prefix {
            lemma_prefix_roundtrip(p, key);
        },
        CompressionType::Dictionary => if let Some(d) = v.dictionary {
            lemma_dictionary_roundtrip(d, key);
        },
        _ => {},
    }
}

/// Every key that a prefix compressor was trained on survives compression, once the
/// learnt prefix is not empty.
pub proof fn lemma_trained_keys_roundtrip(keys: Seq<Seq<u8>>, p: Seq<u8>, i: int)
    requires
        prefix_trained(keys, p),
        p.len() > 0,
        0 <= i < keys.len(),
    ensures
        prefix_decompress_spec(p, prefix_compress_spec(p, keys[i])) == Ok::<Seq<u8>, ErrorView>(keys[i]),
{
    let l = choose|l: int| is_common_prefix_len(keys, l) && p == keys[0].subrange(0, l);
    assert forall|x: int| 0 <= x < l implies keys[i][x] == p[x] by {
        assert(all_agree_at(keys, x));
    }
    if l > 0 {
        assert(all_agree_at(keys, l - 1));
    }
    assert(keys[i].subrange(0, p.len() as int) =~= p);
    lemma_prefix_roundtrip(p, keys[i]);
}

} // verus!
