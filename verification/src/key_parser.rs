//! Parsing of index keys.
//!
//! Every key starts with the space id (8 bytes) and a one-byte key type; the
//! parsers start reading at offset 9. Variable-length fields are framed by a
//! little-endian `u32` length. Values inside keys are kept as the bytes that
//! their serializer produced.
use vstd::prelude::*;
use vstd::utf8::*;
use crate::bytes::{u32_at, u64_at, read_u32_le, read_u64_le, copy_range};
use crate::error::{StorageError, ErrorView, db_error};
use crate::text::string_from_utf8;

verus! {

/// Offset of the first field after the space id and the key-type byte.
pub const KEY_HEADER_LEN: usize = 9;

/// Why a key could not be parsed.
pub enum ParseFailure {
    /// A `DbError` with exactly this message.
    Message(Seq<char>),
    /// The index name is not valid UTF-8; the `DbError` message starts with
    /// `NAME_ENCODING_PREFIX` and goes on with the decoder's description.
    BadName,
}

pub open spec fn name_encoding_prefix() -> Seq<char> {
    "Invalid index_name encoding: "@
}

/// `r` is the result that the parse outcome `s` describes.
pub open spec fn matches_outcome<T: View>(r: Result<T, StorageError>, s: Result<T::V, ParseFailure>) -> bool {
    match (r, s) {
        (Ok(v), Ok(w)) => v@ == w,
        (Err(e), Err(ParseFailure::Message(m))) => e@ == ErrorView::DbError(m),
        (Err(e), Err(ParseFailure::BadName)) => e@ matches ErrorView::DbError(m) && name_encoding_prefix().len()
            <= m.len() && m.subrange(0, name_encoding_prefix().len() as int) == name_encoding_prefix(),
        _ => false,
    }
}

/// Reading a length field at `pos` and stepping over it and the bytes it counts,
/// without checking that those bytes are present.
pub open spec fn skip_step(k: Seq<u8>, pos: int, missing: Seq<char>) -> Result<int, ParseFailure> {
    if k.len() < pos + 4 {
        Err(ParseFailure::Message(missing))
    } else {
        Ok(pos + 4 + u32_at(k, pos))
    }
}

/// Reading a framed field at `pos`: the range of its payload.
pub open spec fn frame_step(k: Seq<u8>, pos: int, missing: Seq<char>, exceeds: Seq<char>) -> Result<
    (int, int),
    ParseFailure,
> {
    if k.len() < pos + 4 {
        Err(ParseFailure::Message(missing))
    } else if k.len() < pos + 4 + u32_at(k, pos) {
        Err(ParseFailure::Message(exceeds))
    } else {
        Ok((pos + 4, pos + 4 + u32_at(k, pos)))
    }
}

/// Decoding the bytes `k[a..b]` as an index name.
pub open spec fn name_step(k: Seq<u8>, a: int, b: int) -> Result<Seq<char>, ParseFailure> {
    if valid_utf8(k.subrange(a, b)) {
        Ok(decode_utf8(k.subrange(a, b)))
    } else {
        Err(ParseFailure::BadName)
    }
}

/// Slices in Rust hold at most `isize::MAX` bytes.
pub open spec fn key_len_ok(k: Seq<u8>) -> bool {
    k.len() <= isize::MAX
}

fn fail<T>(msg: &str) -> (r: Result<T, StorageError>)
    ensures
        r matches Err(e) && e@ == ErrorView::DbError(msg@),
{
    Err(db_error(msg))
}

fn skip_frame(k: &[u8], pos: u64, missing: &str) -> (r: Result<u64, StorageError>)
    requires
        key_len_ok(k@),
        pos <= k@.len() + 0x1_0000_0010,
    ensures
        match skip_step(k@, pos as int, missing@) {
            Ok(p) => r == Ok::<u64, StorageError>(p as u64) && p <= k@.len() + 0x1_0000_0000,
            Err(ParseFailure::Message(m)) => r matches Err(e) && e@ == ErrorView::DbError(m),
            _ => false,
        },
{
    if (k.len() as u64) < pos + 4 {
        return fail(missing);
    }
    let n = read_u32_le(k, pos as usize);
    Ok(pos + 4 + n as u64)
}

fn read_frame(k: &[u8], pos: u64, missing: &str, exceeds: &str) -> (r: Result<(usize, usize), StorageError>)
    requires
        key_len_ok(k@),
        pos <= k@.len() + 0x1_0000_0010,
    ensures
        match frame_step(k@, pos as int, missing@, exceeds@) {
            Ok((a, b)) => r == Ok::<(usize, usize), StorageError>((a as usize, b as usize)) && a <= b <= k@.len(),
            Err(ParseFailure::Message(m)) => r matches Err(e) && e@ == ErrorView::DbError(m),
            _ => false,
        },
{
    if (k.len() as u64) < pos + 4 {
        return fail(missing);
    }
    let n = read_u32_le(k, pos as usize);
    if (k.len() as u64) < pos + 4 + n as u64 {
        return fail(exceeds);
    }
    Ok(((pos + 4) as usize, (pos + 4 + n as u64) as usize))
}

fn read_name(k: &[u8], a: usize, b: usize) -> (r: Result<String, StorageError>)
    requires
        a <= b <= k@.len(),
    ensures
        matches_outcome(r, name_step(k@, a as int, b as int)),
{
    match string_from_utf8(copy_range(k, a, b)) {
        Ok(s) => Ok(s),
        Err(t) => {
            let mut m = "Invalid index_name encoding: ".to_owned();
            m.append(t.as_str());
            proof {
                assert(m@.subrange(0, name_encoding_prefix().len() as int) =~= name_encoding_prefix());
            }
            Err(StorageError::DbError(m))
        },
    }
}

/// The vertex id bytes of a vertex forward key:
/// `[space][type][name_len][name][prop_len][prop][vid_len][vid]`.
pub open spec fn parse_vertex_id_spec(k: Seq<u8>) -> Result<Seq<u8>, ParseFailure> {
    match skip_step(k, 9, "Invalid key: too short"@) {
        Err(f) => Err(f),
        Ok(p1) => match skip_step(k, p1, "Invalid key: missing prop_value_len"@) {
            Err(f) => Err(f),
            Ok(p2) => match frame_step(
                k,
                p2,
                "Invalid key: missing vertex_id_len"@,
                "Invalid key: vertex_id exceeds key length"@,
            ) {
                Err(f) => Err(f),
                Ok((a, b)) => Ok(k.subrange(a, b)),
            },
        },
    }
}

/// The native vertex id of a vertex forward key whose id is stored as 8 raw bytes:
/// `[space][type][name_len][name][prop_len][prop][vid: u64]`.
pub open spec fn parse_vertex_id_native_spec(k: Seq<u8>) -> Result<u64, ParseFailure> {
    match skip_step(k, 9, "Invalid key: too short"@) {
        Err(f) => Err(f),
        Ok(p1) => match skip_step(k, p1, "Invalid key: missing prop_value_len"@) {
            Err(f) => Err(f),
            Ok(p2) => if k.len() < p2 + 8 {
                Err(ParseFailure::Message("Invalid key: vertex_id exceeds key length"@))
            } else {
                Ok(u64_at(k, p2))
            },
        },
    }
}

/// The index name and the id bytes of a reverse key laid out as
/// `[space][type][name_len][name][id_len][id]`, with the error messages of `what`.
pub open spec fn parse_name_then_id_spec(
    k: Seq<u8>,
    too_short: Seq<char>,
    missing_name_len: Seq<char>,
    name_exceeds: Seq<char>,
    missing_id_len: Seq<char>,
    id_exceeds: Seq<char>,
) -> Result<(Seq<char>, Seq<u8>), ParseFailure> {
    if k.len() < 9 {
        Err(ParseFailure::Message(too_short))
    } else {
        match frame_step(k, 9, missing_name_len, name_exceeds) {
            Err(f) => Err(f),
            Ok((a, b)) => match name_step(k, a, b) {
                Err(f) => Err(f),
                Ok(name) => match frame_step(k, b, missing_id_len, id_exceeds) {
                    Err(f) => Err(f),
                    Ok((c, d)) => Ok((name, k.subrange(c, d))),
                },
            },
        }
    }
}

pub open spec fn parse_vertex_reverse_spec(k: Seq<u8>) -> Result<(Seq<char>, Seq<u8>), ParseFailure> {
    parse_name_then_id_spec(
        k,
        "Invalid reverse key: too short"@,
        "Invalid reverse key: missing index_name_len"@,
        "Invalid reverse key: index_name exceeds key length"@,
        "Invalid reverse key: missing vertex_id_len"@,
        "Invalid reverse key: vertex_id exceeds key length"@,
    )
}

pub open spec fn parse_edge_reverse_spec(k: Seq<u8>) -> Result<(Seq<char>, Seq<u8>), ParseFailure> {
    parse_name_then_id_spec(
        k,
        "Invalid edge reverse key: too short"@,
        "Invalid edge reverse key: missing index_name_len"@,
        "Invalid edge reverse key: index_name exceeds key length"@,
        "Invalid edge reverse key: missing src_len"@,
        "Invalid edge reverse key: src exceeds key length"@,
    )
}

/// A vertex reverse key of the second layout: `[space][type][vid_len][vid][name_len][name]`.
pub open spec fn parse_vertex_reverse_v2_spec(k: Seq<u8>) -> Result<(Seq<u8>, Seq<char>), ParseFailure> {
    if k.len() < 9 {
        Err(ParseFailure::Message("Invalid reverse key v2: too short"@))
    } else {
        match frame_step(
            k,
            9,
            "Invalid reverse key v2: missing vertex_id_len"@,
            "Invalid reverse key v2: vertex_id exceeds key length"@,
        ) {
            Err(f) => Err(f),
            Ok((a, b)) => match frame_step(
                k,
                b,
                "Invalid reverse key v2: missing index_name_len"@,
                "Invalid reverse key v2: index_name exceeds key length"@,
            ) {
                Err(f) => Err(f),
                Ok((c, d)) => match name_step(k, c, d) {
                    Err(f) => Err(f),
                    Ok(name) => Ok((k.subrange(a, b), name)),
                },
            },
        }
    }
}

/// A native vertex reverse key: `[space][type][vid: u64][name_len][name]`.
pub open spec fn parse_vertex_reverse_native_spec(k: Seq<u8>) -> Result<(u64, Seq<char>), ParseFailure> {
    if k.len() < 17 {
        Err(ParseFailure::Message("Invalid reverse key native: too short"@))
    } else {
        match frame_step(
            k,
            17,
            "Invalid reverse key native: missing index_name_len"@,
            "Invalid reverse key native: index_name exceeds key length"@,
        ) {
            Err(f) => Err(f),
            Ok((c, d)) => match name_step(k, c, d) {
                Err(f) => Err(f),
                Ok(name) => Ok((u64_at(k, 9), name)),
            },
        }
    }
}

/// The native source and destination ids of an edge forward key:
/// `[space][type][name_len][name][prop_len][prop][src: u64][dst: u64]`.
pub open spec fn parse_edge_ids_native_spec(k: Seq<u8>) -> Result<(u64, u64), ParseFailure> {
    match skip_step(k, 9, "Invalid edge key: too short"@) {
        Err(f) => Err(f),
        Ok(p1) => match skip_step(k, p1, "Invalid edge key: missing prop_value_len"@) {
            Err(f) => Err(f),
            Ok(p2) => if k.len() < p2 + 16 {
                Err(ParseFailure::Message("Invalid edge key: src/dst exceeds key length"@))
            } else {
                Ok((u64_at(k, p2), u64_at(k, p2 + 8)))
            },
        },
    }
}

/// An edge reverse key of the second layout: `[space][type][src_len][src][dst_len][dst][name_len][name]`.
pub open spec fn parse_edge_reverse_v2_spec(k: Seq<u8>) -> Result<(Seq<u8>, Seq<u8>, Seq<char>), ParseFailure> {
    if k.len() < 9 {
        Err(ParseFailure::Message("Invalid edge reverse key v2: too short"@))
    } else {
        match frame_step(
            k,
            9,
            "Invalid edge reverse key v2: missing src_len"@,
            "Invalid edge reverse key v2: src exceeds key length"@,
        ) {
            Err(f) => Err(f),
            Ok((a, b)) => match frame_step(
                k,
                b,
                "Invalid edge reverse key v2: missing dst_len"@,
                "Invalid edge reverse key v2: dst exceeds key length"@,
            ) {
                Err(f) => Err(f),
                Ok((c, d)) => match frame_step(
                    k,
                    d,
                    "Invalid edge reverse key v2: missing index_name_len"@,
                    "Invalid edge reverse key v2: index_name exceeds key length"@,
                ) {
                    Err(f) => Err(f),
                    Ok((e, g)) => match name_step(k, e, g) {
                        Err(f) => Err(f),
                        Ok(name) => Ok((k.subrange(a, b), k.subrange(c, d), name)),
                    },
                },
            },
        }
    }
}

/// A native edge reverse key: `[space][type][src: u64][dst: u64][name_len][name]`.
pub open spec fn parse_edge_reverse_native_spec(k: Seq<u8>) -> Result<(u64, u64, Seq<char>), ParseFailure> {
    if k.len() < 25 {
        Err(ParseFailure::Message("Invalid edge reverse key native: too short"@))
    } else {
        match frame_step(
            k,
            25,
            "Invalid edge reverse key native: missing index_name_len"@,
            "Invalid edge reverse key native: index_name exceeds key length"@,
        ) {
            Err(f) => Err(f),
            Ok((c, d)) => match name_step(k, c, d) {
                Err(f) => Err(f),
                Ok(name) => Ok((u64_at(k, 9), u64_at(k, 17), name)),
            },
        }
    }
}

/// Reading `count` framed fields one after the other from `pos`: their payloads
/// and the position after the last one.
pub open spec fn fields_step(k: Seq<u8>, pos: int, count: nat, missing: Seq<char>, exceeds: Seq<char>) -> Result<
    (Seq<Seq<u8>>, int),
    ParseFailure,
>
    decreases count,
{
    if count == 0 {
        Ok((Seq::empty(), pos))
    } else {
        match frame_step(k, pos, missing, exceeds) {
            Err(f) => Err(f),
            Ok((a, b)) => match fields_step(k, b, (count - 1) as nat, missing, exceeds) {
                Err(f) => Err(f),
                Ok((rest, end)) => Ok((seq![k.subrange(a, b)] + rest, end)),
            },
        }
    }
}

/// A composite key: `[space][type][name_len][name][field_count][fields...]`, then the
/// position of the first field and the field count.
pub open spec fn composite_header_step(k: Seq<u8>, too_short: Seq<char>, missing_count: Seq<char>) -> Result<
    (int, nat),
    ParseFailure,
> {
    if k.len() < 9 {
        Err(ParseFailure::Message(too_short))
    } else {
        let p1 = 13 + u32_at(k, 9);
        if k.len() < p1 + 4 {
            Err(ParseFailure::Message(missing_count))
        } else {
            Ok((p1 + 4, u32_at(k, p1) as nat))
        }
    }
}

/// The serialized field values and vertex id of a composite vertex index key.
pub open spec fn parse_composite_vertex_spec(k: Seq<u8>) -> Result<(Seq<Seq<u8>>, Seq<u8>), ParseFailure> {
    match composite_header_step(
        k,
        "Invalid composite vertex key: too short"@,
        "Invalid composite vertex key: missing field_count"@,
    ) {
        Err(f) => Err(f),
        Ok((p, count)) => match fields_step(
            k,
            p,
            count,
            "Invalid composite vertex key: missing field_len"@,
            "Invalid composite vertex key: field exceeds key length"@,
        ) {
            Err(f) => Err(f),
            Ok((fields, q)) => match frame_step(
                k,
                q,
                "Invalid composite vertex key: missing vertex_id_len"@,
                "Invalid composite vertex key: vertex_id exceeds key length"@,
            ) {
                Err(f) => Err(f),
                Ok((a, b)) => Ok((fields, k.subrange(a, b))),
            },
        },
    }
}

/// The serialized field values, source id and destination id of a composite edge index key.
pub open spec fn parse_composite_edge_spec(k: Seq<u8>) -> Result<(Seq<Seq<u8>>, Seq<u8>, Seq<u8>), ParseFailure> {
    match composite_header_step(
        k,
        "Invalid composite edge key: too short"@,
        "Invalid composite edge key: missing field_count"@,
    ) {
        Err(f) => Err(f),
        Ok((p, count)) => match fields_step(
            k,
            p,
            count,
            "Invalid composite edge key: missing field_len"@,
            "Invalid composite edge key: field exceeds key length"@,
        ) {
            Err(f) => Err(f),
            Ok((fields, q)) => match frame_step(
                k,
                q,
                "Invalid composite edge key: missing src_len"@,
                "Invalid composite edge key: src exceeds key length"@,
            ) {
                Err(f) => Err(f),
                Ok((a, b)) => match frame_step(
                    k,
                    b,
                    "Invalid composite edge key: missing dst_len"@,
                    "Invalid composite edge key: dst exceeds key length"@,
                ) {
                    Err(f) => Err(f),
                    Ok((c, d)) => Ok((fields, k.subrange(a, b), k.subrange(c, d))),
                },
            },
        },
    }
}

/// A key is composite when its field count (read as in a composite key) exceeds one.
pub open spec fn is_composite_spec(k: Seq<u8>) -> bool {
    &&& k.len() >= 13
    &&& k.len() >= 13 + u32_at(k, 9) + 4
    &&& u32_at(k, 13 + u32_at(k, 9)) > 1
}

fn read_composite_header(k: &[u8], too_short: &str, missing_count: &str) -> (r: Result<(u64, u32), StorageError>)
    requires
        key_len_ok(k@),
        k@.len() < 9 || k@.len() >= 13,
    ensures
        match composite_header_step(k@, too_short@, missing_count@) {
            Ok((p, c)) => r == Ok::<(u64, u32), StorageError>((p as u64, c as u32)) && p <= k@.len(),
            Err(ParseFailure::Message(m)) => r matches Err(e) && e@ == ErrorView::DbError(m),
            _ => false,
        },
{
    if k.len() < 9 {
        return fail(too_short);
    }
    let n = read_u32_le(k, 9);
    let p1 = 13 + n as u64;
    if (k.len() as u64) < p1 + 4 {
        return fail(missing_count);
    }
    let count = read_u32_le(k, p1 as usize);
    Ok((p1 + 4, count))
}

fn read_fields(k: &[u8], pos: u64, count: u32, missing: &str, exceeds: &str) -> (r: Result<
    (Vec<Vec<u8>>, u64),
    StorageError,
>)
    requires
        key_len_ok(k@),
        pos <= k@.len(),
    ensures
        match fields_step(k@, pos as int, count as nat, missing@, exceeds@) {
            Ok((fs, q)) => r matches Ok((v, p)) && v@.map_values(|x: Vec<u8>| x@) == fs && p == q && q <= k@.len(),
            Err(ParseFailure::Message(m)) => r matches Err(e) && e@ == ErrorView::DbError(m),
            _ => false,
        },
{
    let mut fields: Vec<Vec<u8>> = Vec::new();
    let mut p = pos;
    let mut i: u32 = 0;
    while i < count
        invariant
            key_len_ok(k@),
            i <= count,
            p <= k@.len(),
            fields_step(k@, pos as int, count as nat, missing@, exceeds@) == match fields_step(
                k@,
                p as int,
                (count - i) as nat,
                missing@,
                exceeds@,
            ) {
                Err(f) => Err(f),
                Ok((rest, end)) => Ok((fields@.map_values(|x: Vec<u8>| x@) + rest, end)),
            },
        decreases count - i,
    {
        let ghost old_fields = fields@.map_values(|x: Vec<u8>| x@);
        let (a, b) = read_frame(k, p, missing, exceeds)?;
        fields.push(copy_range(k, a, b));
        p = b as u64;
        i = i + 1;
        proof {
            assert(fields@.map_values(|x: Vec<u8>| x@) =~= old_fields + seq![k@.subrange(a as int, b as int)]);
            assert forall|rest: Seq<Seq<u8>>| #![auto]
                old_fields + (seq![k@.subrange(a as int, b as int)] + rest)
                    == fields@.map_values(|x: Vec<u8>| x@) + rest by {
                assert(old_fields + (seq![k@.subrange(a as int, b as int)] + rest)
                    =~= fields@.map_values(|x: Vec<u8>| x@) + rest);
            }
        }
    }
    proof {
        assert(fields@.map_values(|x: Vec<u8>| x@) + Seq::<Seq<u8>>::empty() =~= fields@.map_values(|x: Vec<u8>| x@));
    }
    Ok((fields, p))
}

/// Parser of index keys.
pub struct KeyParser;

impl KeyParser {
    /// The serialized vertex id stored at the end of a vertex forward key.
    pub fn parse_vertex_id_from_key(key_bytes: &[u8]) -> (r: Result<Vec<u8>, StorageError>)
        requires
            key_len_ok(key_bytes@),
        ensures
            matches_outcome(r, parse_vertex_id_spec(key_bytes@)),
    {
        let p1 = skip_frame(key_bytes, 9, "Invalid key: too short")?;
        let p2 = skip_frame(key_bytes, p1, "Invalid key: missing prop_value_len")?;
        let (a, b) = read_frame(
            key_bytes,
            p2,
            "Invalid key: missing vertex_id_len",
            "Invalid key: vertex_id exceeds key length",
        )?;
        Ok(copy_range(key_bytes, a, b))
    }

    /// The native `u64` vertex id stored at the end of a vertex forward key.
    pub fn parse_vertex_id_from_key_native(key_bytes: &[u8]) -> (r: Result<u64, StorageError>)
        requires
            key_len_ok(key_bytes@),
        ensures
            matches_outcome(r, parse_vertex_id_native_spec(key_bytes@)),
    {
        let p1 = skip_frame(key_bytes, 9, "Invalid key: too short")?;
        let p2 = skip_frame(key_bytes, p1, "Invalid key: missing prop_value_len")?;
        if (key_bytes.len() as u64) < p2 + 8 {
            return fail("Invalid key: vertex_id exceeds key length");
        }
        Ok(read_u64_le(key_bytes, p2 as usize))
    }

    fn parse_name_then_id(
        key_bytes: &[u8],
        too_short: &str,
        missing_name_len: &str,
        name_exceeds: &str,
        missing_id_len: &str,
        id_exceeds: &str,
    ) -> (r: Result<(String, Vec<u8>), StorageError>)
        requires
            key_len_ok(key_bytes@),
        ensures
            matches_outcome(
                r,
                parse_name_then_id_spec(
                    key_bytes@,
                    too_short@,
                    missing_name_len@,
                    name_exceeds@,
                    missing_id_len@,
                    id_exceeds@,
                ),
            ),
    {
        if key_bytes.len() < 9 {
            return fail(too_short);
        }
        let (a, b) = read_frame(key_bytes, 9, missing_name_len, name_exceeds)?;
        let name = read_name(key_bytes, a, b)?;
        let (c, d) = read_frame(key_bytes, b as u64, missing_id_len, id_exceeds)?;
        Ok((name, copy_range(key_bytes, c, d)))
    }

    /// The index name and the serialized vertex id of a vertex reverse key.
    pub fn parse_vertex_reverse_key(key_bytes: &[u8]) -> (r: Result<(String, Vec<u8>), StorageError>)
        requires
            key_len_ok(key_bytes@),
        ensures
            matches_outcome(r, parse_vertex_reverse_spec(key_bytes@)),
    {
        Self::parse_name_then_id(
            key_bytes,
            "Invalid reverse key: too short",
            "Invalid reverse key: missing index_name_len",
            "Invalid reverse key: index_name exceeds key length",
            "Invalid reverse key: missing vertex_id_len",
            "Invalid reverse key: vertex_id exceeds key length",
        )
    }

    /// The serialized vertex id and the index name of a vertex reverse key of the second layout.
    pub fn parse_vertex_reverse_key_v2(key_bytes: &[u8]) -> (r: Result<(Vec<u8>, String), StorageError>)
        requires
            key_len_ok(key_bytes@),
        ensures
            matches_outcome(r, parse_vertex_reverse_v2_spec(key_bytes@)),
    {
        if key_bytes.len() < 9 {
            return fail("Invalid reverse key v2: too short");
        }
        let (a, b) = read_frame(
            key_bytes,
            9,
            "Invalid reverse key v2: missing vertex_id_len",
            "Invalid reverse key v2: vertex_id exceeds key length",
        )?;
        let vid = copy_range(key_bytes, a, b);
        let (c, d) = read_frame(
            key_bytes,
            b as u64,
            "Invalid reverse key v2: missing index_name_len",
            "Invalid reverse key v2: index_name exceeds key length",
        )?;
        let name = read_name(key_bytes, c, d)?;
        Ok((vid, name))
    }

    /// The native vertex id and the index name of a native vertex reverse key.
    pub fn parse_vertex_reverse_key_native(key_bytes: &[u8]) -> (r: Result<(u64, String), StorageError>)
        requires
            key_len_ok(key_bytes@),
        ensures
            matches_outcome(r, parse_vertex_reverse_native_spec(key_bytes@)),
    {
        if key_bytes.len() < 17 {
            return fail("Invalid reverse key native: too short");
        }
        let vertex_id = read_u64_le(key_bytes, 9);
        let (c, d) = read_frame(
            key_bytes,
            17,
            "Invalid reverse key native: missing index_name_len",
            "Invalid reverse key native: index_name exceeds key length",
        )?;
        let name = read_name(key_bytes, c, d)?;
        Ok((vertex_id, name))
    }

    /// The native source and destination ids of an edge forward key.
    pub fn parse_edge_ids_from_key_native(key_bytes: &[u8]) -> (r: Result<(u64, u64), StorageError>)
        requires
            key_len_ok(key_bytes@),
        ensures
            matches_outcome(r, parse_edge_ids_native_spec(key_bytes@)),
    {
        let p1 = skip_frame(key_bytes, 9, "Invalid edge key: too short")?;
        let p2 = skip_frame(key_bytes, p1, "Invalid edge key: missing prop_value_len")?;
        if (key_bytes.len() as u64) < p2 + 16 {
            return fail("Invalid edge key: src/dst exceeds key length");
        }
        let src = read_u64_le(key_bytes, p2 as usize);
        let dst = read_u64_le(key_bytes, (p2 + 8) as usize);
        Ok((src, dst))
    }

    /// The index name and the serialized source id of an edge reverse key.
    pub fn parse_edge_reverse_key(key_bytes: &[u8]) -> (r: Result<(String, Vec<u8>), StorageError>)
        requires
            key_len_ok(key_bytes@),
        ensures
            matches_outcome(r, parse_edge_reverse_spec(key_bytes@)),
    {
        Self::parse_name_then_id(
            key_bytes,
            "Invalid edge reverse key: too short",
            "Invalid edge reverse key: missing index_name_len",
            "Invalid edge reverse key: index_name exceeds key length",
            "Invalid edge reverse key: missing src_len",
            "Invalid edge reverse key: src exceeds key length",
        )
    }

    /// The serialized source and destination ids and the index name of an edge reverse key
    /// of the second layout.
    pub fn parse_edge_reverse_key_v2(key_bytes: &[u8]) -> (r: Result<(Vec<u8>, Vec<u8>, String), StorageError>)
        requires
            key_len_ok(key_bytes@),
        ensures
            matches_outcome(r, parse_edge_reverse_v2_spec(key_bytes@)),
    {
        if key_bytes.len() < 9 {
            return fail("Invalid edge reverse key v2: too short");
        }
        let (a, b) = read_frame(
            key_bytes,
            9,
            "Invalid edge reverse key v2: missing src_len",
            "Invalid edge reverse key v2: src exceeds key length",
        )?;
        let src = copy_range(key_bytes, a, b);
        let (c, d) = read_frame(
            key_bytes,
            b as u64,
            "Invalid edge reverse key v2: missing dst_len",
            "Invalid edge reverse key v2: dst exceeds key length",
        )?;
        let dst = copy_range(key_bytes, c, d);
        let (e, g) = read_frame(
            key_bytes,
            d as u64,
            "Invalid edge reverse key v2: missing index_name_len",
            "Invalid edge reverse key v2: index_name exceeds key length",
        )?;
        let name = read_name(key_bytes, e, g)?;
        Ok((src, dst, name))
    }

    /// The native source and destination ids and the index name of a native edge reverse key.
    pub fn parse_edge_reverse_key_native(key_bytes: &[u8]) -> (r: Result<(u64, u64, String), StorageError>)
        requires
            key_len_ok(key_bytes@),
        ensures
            matches_outcome(r, parse_edge_reverse_native_spec(key_bytes@)),
    {
        if key_bytes.len() < 25 {
            return fail("Invalid edge reverse key native: too short");
        }
        let src = read_u64_le(key_bytes, 9);
        let dst = read_u64_le(key_bytes, 17);
        let (c, d) = read_frame(
            key_bytes,
            25,
            "Invalid edge reverse key native: missing index_name_len",
            "Invalid edge reverse key native: index_name exceeds key length",
        )?;
        let name = read_name(key_bytes, c, d)?;
        Ok((src, dst, name))
    }
    /// The serialized field values and vertex id of a composite vertex index key. A key of
    /// 9 to 12 bytes is too short to hold the name length that the layout reads, and is
    /// not accepted.
    pub fn parse_composite_vertex_index_key(key_bytes: &[u8]) -> (r: Result<(Vec<Vec<u8>>, Vec<u8>), StorageError>)
        requires
            key_len_ok(key_bytes@),
            key_bytes@.len() < 9 || key_bytes@.len() >= 13,
        ensures
            match (r, parse_composite_vertex_spec(key_bytes@)) {
                (Ok((fs, vid)), Ok((sfs, svid))) => fs@.map_values(|x: Vec<u8>| x@) == sfs && vid@ == svid,
                (Err(e), Err(ParseFailure::Message(m))) => e@ == ErrorView::DbError(m),
                _ => false,
            },
    {
        let (p, count) = read_composite_header(
            key_bytes,
            "Invalid composite vertex key: too short",
            "Invalid composite vertex key: missing field_count",
        )?;
        let (fields, q) = read_fields(
            key_bytes,
            p,
            count,
            "Invalid composite vertex key: missing field_len",
            "Invalid composite vertex key: field exceeds key length",
        )?;
        let (a, b) = read_frame(
            key_bytes,
            q,
            "Invalid composite vertex key: missing vertex_id_len",
            "Invalid composite vertex key: vertex_id exceeds key length",
        )?;
        Ok((fields, copy_range(key_bytes, a, b)))
    }

    /// The serialized field values, source id and destination id of a composite edge index key.
    /// A key of 9 to 12 bytes is too short to hold the name length that the layout reads,
    /// and is not accepted.
    pub fn parse_composite_edge_index_key(key_bytes: &[u8]) -> (r: Result<
        (Vec<Vec<u8>>, Vec<u8>, Vec<u8>),
        StorageError,
    >)
        requires
            key_len_ok(key_bytes@),
            key_bytes@.len() < 9 || key_bytes@.len() >= 13,
        ensures
            match (r, parse_composite_edge_spec(key_bytes@)) {
                (Ok((fs, src, dst)), Ok((sfs, ssrc, sdst))) => fs@.map_values(|x: Vec<u8>| x@) == sfs && src@
                    == ssrc && dst@ == sdst,
                (Err(e), Err(ParseFailure::Message(m))) => e@ == ErrorView::DbError(m),
                _ => false,
            },
    {
        let (p, count) = read_composite_header(
            key_bytes,
            "Invalid composite edge key: too short",
            "Invalid composite edge key: missing field_count",
        )?;
        let (fields, q) = read_fields(
            key_bytes,
            p,
            count,
            "Invalid composite edge key: missing field_len",
            "Invalid composite edge key: field exceeds key length",
        )?;
        let (a, b) = read_frame(
            key_bytes,
            q,
            "Invalid composite edge key: missing src_len",
            "Invalid composite edge key: src exceeds key length",
        )?;
        let (c, d) = read_frame(
            key_bytes,
            b as u64,
            "Invalid composite edge key: missing dst_len",
            "Invalid composite edge key: dst exceeds key length",
        )?;
        Ok((fields, copy_range(key_bytes, a, b), copy_range(key_bytes, c, d)))
    }

    /// Whether the key's field count, read as in a composite key, exceeds one.
    pub fn is_composite_key(key_bytes: &[u8]) -> (r: bool)
        requires
            key_len_ok(key_bytes@),
        ensures
            r == is_composite_spec(key_bytes@),
    {
        if key_bytes.len() < 13 {
            return false;
        }
        let n = read_u32_le(key_bytes, 9);
        let p = 13 + n as u64;
        if (key_bytes.len() as u64) < p + 4 {
            return false;
        }
        let field_count = read_u32_le(key_bytes, p as usize);
        field_count > 1
    }
}

} // verus!
