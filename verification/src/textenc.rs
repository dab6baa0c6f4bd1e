//! The text encryption service. One persistent 32-byte key, generated
//! lazily on first use and kept in the credential cache as base64, encrypts
//! arbitrary UTF-8 text through the AEAD primitive; payloads travel as
//! base64 of nonce ‖ ciphertext ‖ tag.

use vstd::prelude::*;

use crate::aead::{open_payload, payload_opens_to, seal_payload};
use crate::b64::{b64_decode, b64_encode, b64_of};
use crate::cache::CredentialCache;
use crate::errors::VaultError;
use crate::rng::random_bytes;
use crate::util::lemma_utf8_len_bound;
use vstd::string::StrSliceExecFns;
use vstd::string::StringSliceAdditionalSpecFns;
use vstd::utf8::{encode_utf8, encode_utf8_decode_utf8, encode_utf8_valid_utf8, valid_utf8};

verus! {

/// The fixed cache entry name of the persistent text-encryption key.
pub open spec fn spec_encryption_key_name() -> Seq<char> {
    "encryption_key"@
}

/// The entry name as a string slice.
pub fn encryption_key_name() -> (r: &'static str)
    ensures
        r@ == spec_encryption_key_name(),
{
    "encryption_key"
}

/// The cache holds the 32-byte text-encryption key `k`, as base64, under
/// its fixed entry name.
pub open spec fn cache_has_text_key(m: Map<Seq<char>, Seq<char>>, k: Seq<u8>) -> bool {
    &&& k.len() == 32
    &&& m.contains_key(spec_encryption_key_name())
    &&& m[spec_encryption_key_name()] == b64_of(k)
}

/// The payload string is base64 of a payload that opens, under `key`, to
/// the UTF-8 bytes of `plain`.
pub open spec fn text_payload_opens_to(key: Seq<u8>, payload: Seq<char>, plain: Seq<char>) -> bool {
    exists|bytes: Seq<u8>|
        #![auto]
        payload == b64_of(bytes) && payload_opens_to(key, bytes, encode_utf8(plain))
}

/// Decodes a base64-carried key and insists on exactly 32 bytes.
pub fn decode_key(value: &str) -> (r: Result<Vec<u8>, VaultError>)
    ensures
        r matches Ok(k) ==> value@ == b64_of(k@) && k@.len() == 32,
        forall|b: Seq<u8>| b.len() == 32 && value@ == b64_of(b) ==> r is Ok && r->Ok_0@ == b,
        r matches Err(e) ==> e == VaultError::InvalidEncoding || e == VaultError::InvalidKeyLength,
        r matches Err(e) ==> (e == VaultError::InvalidEncoding <==> !(exists|b: Seq<u8>| value@
            == b64_of(b))),
{
    let decoded = match b64_decode(value) {
        Ok(d) => d,
        Err(e) => return Err(e),
    };
    if decoded.len() != 32 {
        return Err(VaultError::InvalidKeyLength);
    }
    Ok(decoded)
}

/// Relies on `String::from_utf8`: it returns the string whose UTF-8 bytes
/// are exactly the input, and succeeds precisely on valid UTF-8.
#[verifier::external_body]
fn bytes_to_string(bytes: Vec<u8>) -> (r: Result<String, VaultError>)
    ensures
        r matches Ok(s) ==> bytes@ == encode_utf8(s@),
        valid_utf8(bytes@) ==> r is Ok,
        r matches Err(e) ==> e == VaultError::InvalidEncoding,
{
    match String::from_utf8(bytes) {
        Ok(s) => Ok(s),
        Err(_) => Err(VaultError::InvalidEncoding),
    }
}

/// The persistent key: read from the cache, or — on the very first use —
/// drawn from the random source and persisted. First caller wins; callers
/// do not coordinate, so the hosting application must serialize calls.
pub fn get_or_create_key(cache: &mut CredentialCache) -> (r: Result<Vec<u8>, VaultError>)
    ensures
        r matches Ok(k) ==> cache_has_text_key(final(cache)@, k@),
        old(cache)@.contains_key(spec_encryption_key_name()) ==> final(cache)@ == old(cache)@ && (
        r is Ok <==> exists|b: Seq<u8>|
            b.len() == 32 && old(cache)@[spec_encryption_key_name()] == b64_of(b)),
        old(cache)@.contains_key(spec_encryption_key_name()) ==> forall|b: Seq<u8>|
            b.len() == 32 && old(cache)@[spec_encryption_key_name()] == b64_of(b) ==> r is Ok
                && r->Ok_0@ == b,
        !old(cache)@.contains_key(spec_encryption_key_name()) ==> r is Ok && final(cache)@ == old(
            cache,
        )@.insert(spec_encryption_key_name(), b64_of(r->Ok_0@)),
        r matches Err(e) ==> (e == VaultError::InvalidEncoding || e == VaultError::InvalidKeyLength)
            && final(cache)@ == old(cache)@,
{
    let existing: Option<String> = match cache.get(encryption_key_name()) {
        Some(v) => Some(v.clone()),
        None => None,
    };
    match existing {
        Some(v) => decode_key(v.as_str()),
        None => {
            let key = random_bytes(32);
            cache.set(encryption_key_name(), b64_encode(&key));
            Ok(key)
        },
    }
}

/// Encrypts the UTF-8 bytes of `plain` under `key` with a fresh random
/// nonce; the result is base64 of nonce ‖ ciphertext ‖ tag.
pub fn encrypt_with_key(key: &Vec<u8>, plain: &str) -> (r: String)
    requires
        key@.len() == 32,
        plain@.len() < 0x4000_0000,
    ensures
        text_payload_opens_to(key@, r@, plain@),
{
    proof {
        lemma_utf8_len_bound(plain@);
    }
    let plain_bytes = plain.as_bytes_vec();
    let payload = match seal_payload(key, &plain_bytes) {
        Ok(p) => p,
        Err(_) => {
            proof {
                assert(false);
            }
            Vec::new()
        },
    };
    b64_encode(&payload)
}

/// Decrypts a base64 payload under `key` and interprets the plaintext as
/// UTF-8. Every payload that wraps some text under `key` — in particular
/// everything `encrypt_with_key` returns — decrypts to exactly that text.
pub fn decrypt_with_key(key: &Vec<u8>, payload: &str) -> (r: Result<String, VaultError>)
    requires
        key@.len() == 32,
    ensures
        forall|cs: Seq<char>|
            cs.len() < 0x4000_0000 && text_payload_opens_to(key@, payload@, cs) ==> r is Ok
                && r->Ok_0@ == cs,
        r matches Ok(s) ==> text_payload_opens_to(key@, payload@, s@),
        r matches Err(e) ==> e == VaultError::InvalidEncoding || e == VaultError::InvalidPayload
            || e == VaultError::AuthenticationFailed,
{
    let decoded = match b64_decode(payload) {
        Ok(d) => d,
        Err(e) => {
            proof {
                assert forall|cs: Seq<char>|
                    cs.len() < 0x4000_0000 && text_payload_opens_to(
                        key@,
                        payload@,
                        cs,
                    ) implies false by {}
            }
            return Err(e);
        },
    };
    let pt = match open_payload(key, &decoded) {
        Ok(p) => p,
        Err(e) => {
            proof {
                assert forall|cs: Seq<char>|
                    cs.len() < 0x4000_0000 && text_payload_opens_to(
                        key@,
                        payload@,
                        cs,
                    ) implies false by {
                    lemma_utf8_len_bound(cs);
                }
            }
            return Err(e);
        },
    };
    match bytes_to_string(pt) {
        Ok(s) => {
            proof {
                assert forall|cs: Seq<char>|
                    cs.len() < 0x4000_0000 && text_payload_opens_to(
                        key@,
                        payload@,
                        cs,
                    ) implies s@ == cs by {
                    lemma_utf8_len_bound(cs);
                    encode_utf8_decode_utf8(cs);
                    encode_utf8_decode_utf8(s@);
                }
            }
            Ok(s)
        },
        Err(e) => {
            proof {
                assert forall|cs: Seq<char>|
                    cs.len() < 0x4000_0000 && text_payload_opens_to(
                        key@,
                        payload@,
                        cs,
                    ) implies false by {
                    lemma_utf8_len_bound(cs);
                    encode_utf8_valid_utf8(cs);
                }
            }
            Err(e)
        },
    }
}

/// Encrypts text under the persistent key, creating that key on first use.
pub fn encrypt_text(cache: &mut CredentialCache, plain: &str) -> (r: Result<String, VaultError>)
    requires
        plain@.len() < 0x4000_0000,
    ensures
        r matches Ok(s) ==> exists|k: Seq<u8>|
            #![auto]
            cache_has_text_key(final(cache)@, k) && text_payload_opens_to(k, s@, plain@),
        old(cache)@.contains_key(spec_encryption_key_name()) ==> final(cache)@ == old(cache)@ && (
        r is Ok <==> exists|b: Seq<u8>|
            b.len() == 32 && old(cache)@[spec_encryption_key_name()] == b64_of(b)),
        !old(cache)@.contains_key(spec_encryption_key_name()) ==> r is Ok,
        r matches Err(e) ==> (e == VaultError::InvalidEncoding || e == VaultError::InvalidKeyLength)
            && final(cache)@ == old(cache)@,
{
    let key = match get_or_create_key(cache) {
        Ok(k) => k,
        Err(e) => return Err(e),
    };
    Ok(encrypt_with_key(&key, plain))
}

/// Decrypts a payload under the persistent key, creating that key on first
/// use. Whenever the cache already held a 32-byte key `k` and the payload
/// wraps some text under `k`, that text comes back.
pub fn decrypt_text(cache: &mut CredentialCache, payload: &str) -> (r: Result<String, VaultError>)
    ensures
        forall|k: Seq<u8>, cs: Seq<char>|
            #![auto]
            cs.len() < 0x4000_0000 && cache_has_text_key(old(cache)@, k) && text_payload_opens_to(
                k,
                payload@,
                cs,
            ) ==> r is Ok && r->Ok_0@ == cs,
        r matches Ok(s) ==> exists|k: Seq<u8>|
            #![auto]
            cache_has_text_key(final(cache)@, k) && text_payload_opens_to(k, payload@, s@),
        old(cache)@.contains_key(spec_encryption_key_name()) ==> final(cache)@ == old(cache)@,
        r matches Err(e) ==> e == VaultError::InvalidEncoding || e == VaultError::InvalidKeyLength
            || e == VaultError::InvalidPayload || e == VaultError::AuthenticationFailed,
{
    let key = match get_or_create_key(cache) {
        Ok(k) => k,
        Err(e) => return Err(e),
    };
    decrypt_with_key(&key, payload)
}

/// Text round-trip law: a payload assembled exactly as `encrypt_with_key`
/// assembles one — base64 of a nonce followed by the seal of the text's
/// UTF-8 bytes — wraps that text under that key, so `decrypt_with_key`'s
/// contract obliges it to return the text again.
pub proof fn lemma_text_roundtrip(key: Seq<u8>, nonce: Seq<u8>, plain: Seq<char>, sealed: Seq<u8>)
    requires
        nonce.len() == 12,
        sealed == crate::aead::aead_seal(key, nonce, encode_utf8(plain)),
        sealed.len() == encode_utf8(plain).len() + 16,
    ensures
        text_payload_opens_to(key, b64_of(nonce + sealed), plain),
{
    crate::aead::lemma_payload_roundtrip(key, nonce, encode_utf8(plain), sealed);
}

} // verus!
