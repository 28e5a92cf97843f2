use vstd::prelude::*;
use crate::error::ProveError;
use vstd::string::StringSliceAdditionalSpecFns;

verus! {

/// What `base64::decode` (standard alphabet, padded) returns on `s`, with
/// its error as `None`.
pub uninterp spec fn base64_decoded(s: Seq<u8>) -> Option<Seq<u8>>;

/// What `base64::encode` (standard alphabet, padded) returns on `b`.
pub uninterp spec fn base64_encoded(b: Seq<u8>) -> Seq<char>;

/// Relies on `base64::decode`: the bytes that the text encodes, or its
/// `DecodeError`.
#[verifier::external_body]
fn decode_base64(s: &[u8]) -> (r: Option<Vec<u8>>)
    ensures
        match r {
            Some(v) => base64_decoded(s@) == Some(v@),
            None => base64_decoded(s@) is None,
        },
{
    base64::decode(s).ok()
}

/// Relies on `base64::encode`: the padded standard-alphabet text of `b`.
#[verifier::external_body]
fn encode_base64(b: &[u8]) -> (r: String)
    ensures
        r@ == base64_encoded(b@),
{
    base64::encode(b)
}

/// Decodes an input carried as base64 text; `InvalidEncoding` when the text
/// is not valid base64.
pub fn decode_transport(s: &str) -> (r: Result<Vec<u8>, ProveError>)
    ensures
        match base64_decoded(s.spec_bytes()) {
            Some(b) => r matches Ok(v) && v@ == b,
            None => r == Err::<Vec<u8>, ProveError>(ProveError::InvalidEncoding),
        },
{
    match decode_base64(s.as_bytes()) {
        Some(v) => Ok(v),
        None => Err(ProveError::InvalidEncoding),
    }
}

/// Encodes bytes as base64 text for text-only channels.
pub fn encode_transport(b: &Vec<u8>) -> (r: String)
    ensures
        r@ == base64_encoded(b@),
{
    encode_base64(b.as_slice())
}

} // verus!
