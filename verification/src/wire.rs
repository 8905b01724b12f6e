//! The wire contract for actors run over a real network: a message leaves as
//! bytes and arrives as bytes, and a decoding failure is reported as a typed
//! error, never silently dropped. The encoding is the structured text format
//! serde_json produces.

use vstd::prelude::*;

verus! {

/// The byte encoding serde_json produces for a timestamp message.
pub uninterp spec fn json_bytes_of_u32(x: u32) -> Seq<u8>;

/// The timestamp serde_json parses a byte sequence as, if any.
pub uninterp spec fn json_parse_u32(b: Seq<u8>) -> Option<u32>;

/// A message that could not be decoded.
#[derive(Clone, Copy, Debug, PartialEq, Eq, Structural)]
pub enum DecodeError {
    Malformed,
}

/// Relies on serde_json::to_vec: the encoding of an integer depends on its
/// value alone, always succeeds, and parses back to the same value.
#[verifier::external_body]
fn to_json_u32(x: u32) -> (r: Vec<u8>)
    ensures
        r@ == json_bytes_of_u32(x),
        json_parse_u32(r@) == Some(x),
{
    match serde_json::to_vec(&x) {
        Ok(v) => v,
        Err(_) => Vec::new(),
    }
}

/// Relies on serde_json::from_slice: whether bytes parse as an integer, and
/// as which, depends on the bytes alone.
#[verifier::external_body]
fn from_json_u32(b: &Vec<u8>) -> (r: Option<u32>)
    ensures
        r == json_parse_u32(b@),
{
    match serde_json::from_slice::<u32>(b) {
        Ok(x) => Some(x),
        Err(_) => None,
    }
}

/// Encodes a clock timestamp for the wire; the result decodes back to the
/// same timestamp.
pub fn serialize_timestamp(msg: u32) -> (r: Vec<u8>)
    ensures
        r@ == json_bytes_of_u32(msg),
        json_parse_u32(r@) == Some(msg),
{
    to_json_u32(msg)
}

/// Decodes a clock timestamp from the wire. Exactly the byte sequences that
/// parse as a timestamp are accepted; anything else is reported as malformed.
pub fn deserialize_timestamp(b: &Vec<u8>) -> (r: Result<u32, DecodeError>)
    ensures
        match r {
            Ok(x) => json_parse_u32(b@) == Some(x),
            Err(e) => json_parse_u32(b@) is None && e == DecodeError::Malformed,
        },
{
    match from_json_u32(b) {
        Some(x) => Ok(x),
        None => Err(DecodeError::Malformed),
    }
}

} // verus!
