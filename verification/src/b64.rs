//! The external base64 codec. The standard alphabet with required padding is
//! canonical: every byte string has exactly one encoding, and only encodings
//! decode. `b64_of` names the encoding; the decode wrapper's contract says
//! that decoding inverts it and accepts nothing else.

use vstd::prelude::*;

use crate::errors::VaultError;
use base64::Engine;

verus! {

/// The padded standard base64 encoding of a byte string, as base64's
/// `STANDARD` engine computes it. It depends on the bytes alone.
pub uninterp spec fn b64_of(bytes: Seq<u8>) -> Seq<char>;

/// Relies on base64's `STANDARD` engine: `encode` returns the padded
/// standard encoding of the input bytes and nothing else.
#[verifier::external_body]
pub fn b64_encode(bytes: &Vec<u8>) -> (r: String)
    ensures
        r@ == b64_of(bytes@),
{
    base64::engine::general_purpose::STANDARD.encode(bytes)
}

/// Relies on base64's `STANDARD` engine: `decode` returns the bytes whose
/// encoding the input is, and rejects anything that is not a canonical
/// padded encoding (the engine is built with `RequireCanonical` padding and
/// disallows trailing bits).
#[verifier::external_body]
pub fn b64_decode(s: &str) -> (r: Result<Vec<u8>, VaultError>)
    ensures
        r matches Ok(b) ==> s@ == b64_of(b@),
        forall|b: Seq<u8>| s@ == b64_of(b) ==> r is Ok && r->Ok_0@ == b,
        r matches Err(e) ==> e == VaultError::InvalidEncoding,
{
    match base64::engine::general_purpose::STANDARD.decode(s.as_bytes()) {
        Ok(v) => Ok(v),
        Err(_) => Err(VaultError::InvalidEncoding),
    }
}

} // verus!
