//! UTF-8 decoding of names read from keys.
use vstd::prelude::*;
use vstd::utf8::*;

verus! {

/// Calls `String::from_utf8`. The standard library documents that it returns
/// the string whose UTF-8 encoding is `bytes` when `bytes` is valid UTF-8, and
/// an error otherwise. The error is handed back as its display text, of which
/// nothing is stated.
#[verifier::external_body]
pub(crate) fn string_from_utf8(bytes: Vec<u8>) -> (r: Result<String, String>)
    ensures
        r is Ok <==> valid_utf8(bytes@),
        r matches Ok(s) ==> s@ == decode_utf8(bytes@),
{
    match String::from_utf8(bytes) {
        Ok(s) => Ok(s),
        Err(e) => Err(e.to_string()),
    }
}

} // verus!
