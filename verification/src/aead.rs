//! The AEAD primitive. A 32-byte key wraps byte strings as
//! nonce ‖ ciphertext ‖ tag, with a fresh random 12-byte nonce for every
//! seal — never a counter, since nonce reuse under one key is the one
//! catastrophic failure mode here. `aead_seal` names what AES-256-GCM
//! computes from a key, a nonce and a plaintext; the open wrapper's contract
//! ties opening to it, which is what every round-trip proof rests on.

use vstd::prelude::*;

use crate::errors::VaultError;
use crate::rng::random_bytes;
use crate::util::{four_gib, sub_vec};
use aes_gcm::aead::Aead;
use aes_gcm::{Aes256Gcm, KeyInit, Nonce};

verus! {

/// The ciphertext-and-tag that AES-256-GCM produces from a 32-byte key, a
/// 12-byte nonce and a plaintext. It depends on those three inputs alone.
pub uninterp spec fn aead_seal(key: Seq<u8>, nonce: Seq<u8>, plaintext: Seq<u8>) -> Seq<u8>;

/// The payload layout: a 12-byte nonce followed by ciphertext and a 16-byte
/// tag that seal `plaintext` under `key` with that nonce.
pub open spec fn payload_opens_to(key: Seq<u8>, payload: Seq<u8>, plaintext: Seq<u8>) -> bool {
    &&& payload.len() == plaintext.len() + 28
    &&& payload.subrange(12, payload.len() as int) == aead_seal(
        key,
        payload.subrange(0, 12),
        plaintext,
    )
}

/// Relies on aes_gcm's `Aes256Gcm::encrypt`: it is deterministic in the key,
/// nonce and plaintext, returns ciphertext followed by a 16-byte tag, and
/// accepts every plaintext up to the crate's 2^36-byte limit.
#[verifier::external_body]
fn aes_gcm_seal(key: &Vec<u8>, nonce: &Vec<u8>, plaintext: &Vec<u8>) -> (r: Result<
    Vec<u8>,
    VaultError,
>)
    requires
        key@.len() == 32,
        nonce@.len() == 12,
    ensures
        r matches Ok(ct) ==> ct@ == aead_seal(key@, nonce@, plaintext@) && ct@.len()
            == plaintext@.len() + 16,
        plaintext@.len() <= four_gib() ==> r is Ok,
{
    let cipher = match Aes256Gcm::new_from_slice(key.as_slice()) {
        Ok(c) => c,
        Err(_) => return Err(VaultError::InvalidKeyLength),
    };
    match cipher.encrypt(Nonce::from_slice(nonce.as_slice()), plaintext.as_slice()) {
        Ok(ct) => Ok(ct),
        Err(_) => Err(VaultError::InvalidPayload),
    }
}

/// Relies on aes_gcm's `Aes256Gcm::decrypt`: it returns a plaintext exactly
/// when the input is ciphertext-and-tag that AES-256-GCM produces for that
/// plaintext under the same key and nonce (the tag comparison admits nothing
/// else), and reports every failure as one authentication error.
#[verifier::external_body]
fn aes_gcm_open(key: &Vec<u8>, nonce: &Vec<u8>, sealed: &Vec<u8>) -> (r: Result<
    Vec<u8>,
    VaultError,
>)
    requires
        key@.len() == 32,
        nonce@.len() == 12,
    ensures
        r matches Ok(pt) ==> pt@.len() + 16 == sealed@.len() && sealed@ == aead_seal(
            key@,
            nonce@,
            pt@,
        ),
        forall|pt: Seq<u8>|
            pt.len() + 16 == sealed@.len() && pt.len() <= four_gib() && sealed@ == aead_seal(
                key@,
                nonce@,
                pt,
            ) ==> r is Ok && r->Ok_0@ == pt,
        r matches Err(e) ==> e == VaultError::AuthenticationFailed,
{
    let cipher = match Aes256Gcm::new_from_slice(key.as_slice()) {
        Ok(c) => c,
        Err(_) => return Err(VaultError::AuthenticationFailed),
    };
    match cipher.decrypt(Nonce::from_slice(nonce.as_slice()), sealed.as_slice()) {
        Ok(pt) => Ok(pt),
        Err(_) => Err(VaultError::AuthenticationFailed),
    }
}

/// Seals `plaintext` under `key` with a fresh random nonce, returning
/// nonce ‖ ciphertext ‖ tag.
pub fn seal_payload(key: &Vec<u8>, plaintext: &Vec<u8>) -> (r: Result<Vec<u8>, VaultError>)
    requires
        key@.len() == 32,
    ensures
        r matches Ok(w) ==> payload_opens_to(key@, w@, plaintext@),
        plaintext@.len() <= four_gib() ==> r is Ok,
{
    let nonce = random_bytes(12);
    let sealed = match aes_gcm_seal(key, &nonce, plaintext) {
        Ok(ct) => ct,
        Err(e) => return Err(e),
    };
    let mut out: Vec<u8> = Vec::new();
    out.extend_from_slice(nonce.as_slice());
    out.extend_from_slice(sealed.as_slice());
    proof {
        assert(out@.subrange(0, 12) =~= nonce@);
        assert(out@.subrange(12, out@.len() as int) =~= sealed@);
    }
    Ok(out)
}

/// Opens a nonce ‖ ciphertext ‖ tag payload under `key`. Fails with
/// `InvalidPayload` exactly when the payload is shorter than 13 bytes and
/// with `AuthenticationFailed` whenever the tag does not verify; the two are
/// all a caller ever learns.
pub fn open_payload(key: &Vec<u8>, payload: &Vec<u8>) -> (r: Result<Vec<u8>, VaultError>)
    requires
        key@.len() == 32,
    ensures
        r matches Ok(pt) ==> payload_opens_to(key@, payload@, pt@),
        forall|pt: Seq<u8>|
            pt.len() <= four_gib() && payload_opens_to(key@, payload@, pt) ==> r is Ok
                && r->Ok_0@ == pt,
        r matches Err(e) ==> (e == VaultError::InvalidPayload <==> payload@.len() < 13),
        r matches Err(e) ==> e == VaultError::InvalidPayload || e
            == VaultError::AuthenticationFailed,
{
    if payload.len() < 13 {
        return Err(VaultError::InvalidPayload);
    }
    let nonce = sub_vec(payload, 0, 12);
    let sealed = sub_vec(payload, 12, payload.len());
    aes_gcm_open(key, &nonce, &sealed)
}

/// Wraps a 32-byte data key under a 32-byte wrapping key; the result is the
/// 60-byte wrapped-key payload.
pub fn wrap_key(data_key: &Vec<u8>, wrapping_key: &Vec<u8>) -> (r: Vec<u8>)
    requires
        data_key@.len() == 32,
        wrapping_key@.len() == 32,
    ensures
        payload_opens_to(wrapping_key@, r@, data_key@),
        r@.len() == 60,
{
    match seal_payload(wrapping_key, data_key) {
        Ok(w) => w,
        Err(_) => {
            proof {
                assert(false);
            }
            Vec::new()
        },
    }
}

/// Unwraps a wrapped data key. Beyond [`open_payload`]'s failures, a
/// plaintext that is not exactly 32 bytes is rejected as `InvalidKeyLength`.
pub fn unwrap_key(wrapped: &Vec<u8>, wrapping_key: &Vec<u8>) -> (r: Result<Vec<u8>, VaultError>)
    requires
        wrapping_key@.len() == 32,
    ensures
        r matches Ok(dk) ==> dk@.len() == 32 && payload_opens_to(wrapping_key@, wrapped@, dk@),
        forall|dk: Seq<u8>|
            dk.len() == 32 && payload_opens_to(wrapping_key@, wrapped@, dk) ==> r is Ok
                && r->Ok_0@ == dk,
        r matches Err(e) ==> (e == VaultError::InvalidPayload <==> wrapped@.len() < 13),
        r matches Err(e) ==> e == VaultError::InvalidPayload || e == VaultError::AuthenticationFailed
            || e == VaultError::InvalidKeyLength,
{
    let pt = match open_payload(wrapping_key, wrapped) {
        Ok(pt) => pt,
        Err(e) => return Err(e),
    };
    if pt.len() != 32 {
        return Err(VaultError::InvalidKeyLength);
    }
    Ok(pt)
}

/// Round-trip law: a payload assembled from a nonce and a seal of `plaintext`
/// opens to `plaintext` again. The seal's length is what [`aes_gcm_seal`]
/// guarantees of every ciphertext it returns.
pub proof fn lemma_payload_roundtrip(
    key: Seq<u8>,
    nonce: Seq<u8>,
    plaintext: Seq<u8>,
    sealed: Seq<u8>,
)
    requires
        nonce.len() == 12,
        sealed == aead_seal(key, nonce, plaintext),
        sealed.len() == plaintext.len() + 16,
    ensures
        payload_opens_to(key, nonce + sealed, plaintext),
{
    assert((nonce + sealed).subrange(0, 12) =~= nonce);
    assert((nonce + sealed).subrange(12, (nonce + sealed).len() as int) =~= sealed);
}

} // verus!
