//! Little-endian framing of byte strings, shared by the key codecs.
use vstd::prelude::*;
use vstd::bytes::*;

verus! {

/// A byte string preceded by its length as a little-endian `u32`.
pub open spec fn framed(b: Seq<u8>) -> Seq<u8> {
    spec_u32_to_le_bytes(b.len() as u32) + b
}

/// The little-endian `u32` that starts at `pos` in `s`.
pub open spec fn u32_at(s: Seq<u8>, pos: int) -> u32 {
    spec_u32_from_le_bytes(s.subrange(pos, pos + 4))
}

/// The little-endian `u64` that starts at `pos` in `s`.
pub open spec fn u64_at(s: Seq<u8>, pos: int) -> u64 {
    spec_u64_from_le_bytes(s.subrange(pos, pos + 8))
}

/// Appends `s` to `v`.
pub fn append_bytes(v: &mut Vec<u8>, s: &[u8])
    ensures
        final(v)@ == old(v)@ + s@,
{
    let mut i: usize = 0;
    while i < s.len()
        invariant
            i <= s@.len(),
            v@ == old(v)@ + s@.subrange(0, i as int),
        decreases s@.len() - i,
    {
        v.push(s[i]);
        i = i + 1;
        assert(v@ =~= old(v)@ + s@.subrange(0, i as int));
    }
    assert(s@.subrange(0, i as int) =~= s@);
}

/// Appends the four little-endian bytes of `x` to `v`.
pub fn append_u32_le(v: &mut Vec<u8>, x: u32)
    ensures
        final(v)@ == old(v)@ + spec_u32_to_le_bytes(x),
{
    let b = u32_to_le_bytes(x);
    append_bytes(v, b.as_slice());
}

/// Appends the eight little-endian bytes of `x` to `v`.
pub fn append_u64_le(v: &mut Vec<u8>, x: u64)
    ensures
        final(v)@ == old(v)@ + spec_u64_to_le_bytes(x),
{
    let b = u64_to_le_bytes(x);
    append_bytes(v, b.as_slice());
}

/// Appends `s` preceded by its length (truncated to 32 bits) to `v`.
pub fn append_framed(v: &mut Vec<u8>, s: &[u8])
    ensures
        final(v)@ == old(v)@ + framed(s@),
{
    append_u32_le(v, s.len() as u32);
    append_bytes(v, s);
    assert(v@ =~= old(v)@ + framed(s@));
}

/// Reads the little-endian `u32` at `pos`.
pub fn read_u32_le(s: &[u8], pos: usize) -> (r: u32)
    requires
        pos + 4 <= s@.len(),
    ensures
        r == u32_at(s@, pos as int),
{
    let _n = s.len();
    u32_from_le_bytes(vstd::slice::slice_subrange(s, pos, pos + 4))
}

/// Reads the little-endian `u64` at `pos`.
pub fn read_u64_le(s: &[u8], pos: usize) -> (r: u64)
    requires
        pos + 8 <= s@.len(),
    ensures
        r == u64_at(s@, pos as int),
{
    let _n = s.len();
    u64_from_le_bytes(vstd::slice::slice_subrange(s, pos, pos + 8))
}

/// Copies `s[start..end]` into a new vector.
pub fn copy_range(s: &[u8], start: usize, end: usize) -> (r: Vec<u8>)
    requires
        start <= end <= s@.len(),
    ensures
        r@ == s@.subrange(start as int, end as int),
{
    let mut r: Vec<u8> = Vec::new();
    append_bytes(&mut r, vstd::slice::slice_subrange(s, start, end));
    r
}

/// Reading back a framed string: its length field holds its length, and its
/// payload follows.
pub proof fn lemma_framed_parts(pre: Seq<u8>, b: Seq<u8>, post: Seq<u8>)
    requires
        b.len() <= u32::MAX,
    ensures
        ({
            let s = pre + framed(b) + post;
            let p = pre.len() as int;
            &&& u32_at(s, p) == b.len()
            &&& s.subrange(p + 4, p + 4 + b.len()) == b
            &&& s.len() == pre.len() + 4 + b.len() + post.len()
        }),
{
    lemma_auto_spec_u32_to_from_le_bytes();
    let s = pre + framed(b) + post;
    let l = spec_u32_to_le_bytes(b.len() as u32);
    let p = pre.len() as int;
    assert(s.subrange(p, p + 4) =~= l);
    assert(s.subrange(p + 4, p + 4 + b.len()) =~= b);
}

} // verus!

verus! {

/// A new vector holding the bytes of `s`.
pub fn bytes_to_vec(s: &[u8]) -> (r: Vec<u8>)
    ensures
        r@ == s@,
{
    let mut r: Vec<u8> = Vec::new();
    append_bytes(&mut r, s);
    assert(r@ =~= s@);
    r
}

} // verus!
