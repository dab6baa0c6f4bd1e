//! The vault envelope protocol. A random 32-byte data key is wrapped under
//! a key derived from the user's passphrase and a random 16-byte salt; the
//! bundle `salt ‖ wrapped key`, carried as base64, is all the caller
//! persists. While unlocked, the data key sits in the credential cache
//! under a fixed entry name. A wrong passphrase surfaces as an
//! authentication failure indistinguishable from tampering, and a failed
//! unlock never disturbs a previously cached key.

use vstd::prelude::*;

use crate::aead::{aead_seal, lemma_payload_roundtrip, payload_opens_to, unwrap_key, wrap_key};
use crate::b64::{b64_decode, b64_encode, b64_of};
use crate::cache::CredentialCache;
use crate::errors::VaultError;
use crate::kdf::{derive_wrapping_key, wrapping_key_of};
use crate::rng::random_bytes;
use crate::util::{lemma_utf8_len_bound, sub_vec};
use vstd::string::StrSliceExecFns;

verus! {

/// The fixed cache entry name under which the unwrapped data key is cached
/// while the vault is unlocked.
pub open spec fn spec_vault_data_key_name() -> Seq<char> {
    "vault_data_key"@
}

/// The entry name as a string slice.
pub fn vault_data_key_name() -> (r: &'static str)
    ensures
        r@ == spec_vault_data_key_name(),
{
    "vault_data_key"
}

/// A decoded bundle is a 16-byte salt followed by a wrapped-key payload
/// that opens, under the wrapping key the passphrase and salt derive, to
/// the data key `dk`.
pub open spec fn bundle_opens_to(pass: Seq<char>, bundle: Seq<u8>, dk: Seq<u8>) -> bool {
    &&& bundle.len() >= 17
    &&& payload_opens_to(
        wrapping_key_of(pass, bundle.subrange(0, 16)),
        bundle.subrange(16, bundle.len() as int),
        dk,
    )
}

/// What `vault_status` reports. Whether a vault was ever initialized is
/// here computed from the same cached entry as `has_cached_key`; only the
/// caller, who owns the persisted bundle, could tell the two apart.
pub struct VaultStatus {
    pub initialized: bool,
    pub has_cached_key: bool,
}

/// Reports whether a data key is currently cached.
pub fn vault_status(cache: &CredentialCache) -> (r: Result<VaultStatus, VaultError>)
    ensures
        r is Ok,
        r matches Ok(st) ==> st.has_cached_key == cache@.contains_key(spec_vault_data_key_name())
            && st.initialized == st.has_cached_key,
{
    let has = cache.contains(vault_data_key_name());
    Ok(VaultStatus { initialized: has, has_cached_key: has })
}

/// Creates a fresh vault: a random data key wrapped under a key derived
/// from the passphrase and a fresh random salt. The data key is cached;
/// the returned base64 bundle is the caller's to persist. A passphrase of
/// fewer than 8 characters is rejected before any key material is drawn
/// or cached.
pub fn vault_initialize(cache: &mut CredentialCache, passphrase: &str) -> (r: Result<
    String,
    VaultError,
>)
    requires
        passphrase@.len() < 0x4000_0000,
    ensures
        r == Err::<String, VaultError>(VaultError::WeakPassphrase) <==> passphrase@.len() < 8,
        passphrase@.len() < 8 ==> final(cache)@ == old(cache)@,
        passphrase@.len() >= 8 ==> r is Ok,
        r matches Ok(b) ==> exists|bytes: Seq<u8>, dk: Seq<u8>|
            #![auto]
            {
                &&& b@ == b64_of(bytes)
                &&& dk.len() == 32
                &&& bundle_opens_to(passphrase@, bytes, dk)
                &&& final(cache)@ == old(cache)@.insert(spec_vault_data_key_name(), b64_of(dk))
            },
{
    if passphrase.unicode_len() < 8 {
        return Err(VaultError::WeakPassphrase);
    }
    proof {
        lemma_utf8_len_bound(passphrase@);
    }
    let data_key = random_bytes(32);
    let salt = random_bytes(16);
    let wrapping_key = derive_wrapping_key(passphrase, &salt);
    let wrapped = wrap_key(&data_key, &wrapping_key);
    let mut bundle: Vec<u8> = Vec::new();
    bundle.extend_from_slice(salt.as_slice());
    bundle.extend_from_slice(wrapped.as_slice());
    cache.set(vault_data_key_name(), b64_encode(&data_key));
    proof {
        assert(bundle@.subrange(0, 16) =~= salt@);
        assert(bundle@.subrange(16, bundle@.len() as int) =~= wrapped@);
        assert(bundle_opens_to(passphrase@, bundle@, data_key@));
    }
    Ok(b64_encode(&bundle))
}

/// Recovers the data key from a bundle with the passphrase and caches it.
/// Success happens exactly when the bundle decodes and opens to a 32-byte
/// data key under the passphrase; any failure leaves the cache — and so a
/// previously cached key — untouched.
pub fn vault_unlock(cache: &mut CredentialCache, passphrase: &str, wrapped_bundle: &str) -> (r:
    Result<(), VaultError>)
    requires
        passphrase@.len() < 0x4000_0000,
    ensures
        r is Ok <==> exists|bytes: Seq<u8>, dk: Seq<u8>|
            #![auto]
            wrapped_bundle@ == b64_of(bytes) && dk.len() == 32 && bundle_opens_to(
                passphrase@,
                bytes,
                dk,
            ),
        r is Ok ==> exists|bytes: Seq<u8>, dk: Seq<u8>|
            #![auto]
            wrapped_bundle@ == b64_of(bytes) && dk.len() == 32 && bundle_opens_to(
                passphrase@,
                bytes,
                dk,
            ) && final(cache)@ == old(cache)@.insert(spec_vault_data_key_name(), b64_of(dk)),
        r is Err ==> final(cache)@ == old(cache)@,
        r matches Err(e) ==> (e == VaultError::InvalidEncoding <==> !(exists|bytes: Seq<u8>|
            wrapped_bundle@ == b64_of(bytes))),
        r matches Err(e) ==> (e == VaultError::InvalidBundle <==> (exists|bytes: Seq<u8>|
            wrapped_bundle@ == b64_of(bytes) && bytes.len() < 17)),
        r matches Err(e) ==> e == VaultError::InvalidEncoding || e == VaultError::InvalidBundle
            || e == VaultError::InvalidPayload || e == VaultError::AuthenticationFailed || e
            == VaultError::InvalidKeyLength,
{
    let bundle = match b64_decode(wrapped_bundle) {
        Ok(b) => b,
        Err(e) => return Err(e),
    };
    if bundle.len() < 17 {
        return Err(VaultError::InvalidBundle);
    }
    let salt = sub_vec(&bundle, 0, 16);
    let wrapped = sub_vec(&bundle, 16, bundle.len());
    proof {
        lemma_utf8_len_bound(passphrase@);
    }
    let wrapping_key = derive_wrapping_key(passphrase, &salt);
    let data_key = match unwrap_key(&wrapped, &wrapping_key) {
        Ok(k) => k,
        Err(e) => return Err(e),
    };
    cache.set(vault_data_key_name(), b64_encode(&data_key));
    proof {
        assert(bundle_opens_to(passphrase@, bundle@, data_key@));
    }
    Ok(())
}

/// Re-wraps the data key of a bundle under a new passphrase and a fresh
/// salt, without touching the cache: recovering the key with the old
/// passphrase, deriving anew, and wrapping again. The new bundle opens to
/// the same data key — the caller replaces the persisted bundle atomically.
pub fn vault_rewrap(old_passphrase: &str, new_passphrase: &str, wrapped_bundle: &str) -> (r: Result<
    String,
    VaultError,
>)
    requires
        old_passphrase@.len() < 0x4000_0000,
        new_passphrase@.len() < 0x4000_0000,
    ensures
        r == Err::<String, VaultError>(VaultError::WeakPassphrase) <==> new_passphrase@.len() < 8,
        r is Ok <==> (new_passphrase@.len() >= 8 && exists|bytes: Seq<u8>, dk: Seq<u8>|
            #![auto]
            wrapped_bundle@ == b64_of(bytes) && dk.len() == 32 && bundle_opens_to(
                old_passphrase@,
                bytes,
                dk,
            )),
        forall|bytes: Seq<u8>, dk: Seq<u8>|
            #![auto]
            (new_passphrase@.len() >= 8 && wrapped_bundle@ == b64_of(bytes) && dk.len() == 32
                && bundle_opens_to(old_passphrase@, bytes, dk)) ==> r is Ok && (exists|
                nb: Seq<u8>,
            |
                #![auto]
                r->Ok_0@ == b64_of(nb) && bundle_opens_to(new_passphrase@, nb, dk)),
        r matches Err(e) ==> e == VaultError::WeakPassphrase || e == VaultError::InvalidEncoding
            || e == VaultError::InvalidBundle || e == VaultError::InvalidPayload || e
            == VaultError::AuthenticationFailed || e == VaultError::InvalidKeyLength,
{
    if new_passphrase.unicode_len() < 8 {
        return Err(VaultError::WeakPassphrase);
    }
    let bundle = match b64_decode(wrapped_bundle) {
        Ok(b) => b,
        Err(e) => return Err(e),
    };
    if bundle.len() < 17 {
        return Err(VaultError::InvalidBundle);
    }
    let old_salt = sub_vec(&bundle, 0, 16);
    let wrapped = sub_vec(&bundle, 16, bundle.len());
    proof {
        lemma_utf8_len_bound(old_passphrase@);
        lemma_utf8_len_bound(new_passphrase@);
    }
    let old_wrapping_key = derive_wrapping_key(old_passphrase, &old_salt);
    let data_key = match unwrap_key(&wrapped, &old_wrapping_key) {
        Ok(k) => k,
        Err(e) => return Err(e),
    };
    proof {
        assert(bundle_opens_to(old_passphrase@, bundle@, data_key@));
    }
    let new_salt = random_bytes(16);
    let new_wrapping_key = derive_wrapping_key(new_passphrase, &new_salt);
    let new_wrapped = wrap_key(&data_key, &new_wrapping_key);
    let mut new_bundle: Vec<u8> = Vec::new();
    new_bundle.extend_from_slice(new_salt.as_slice());
    new_bundle.extend_from_slice(new_wrapped.as_slice());
    proof {
        assert(new_bundle@.subrange(0, 16) =~= new_salt@);
        assert(new_bundle@.subrange(16, new_bundle@.len() as int) =~= new_wrapped@);
        assert(bundle_opens_to(new_passphrase@, new_bundle@, data_key@));
    }
    Ok(b64_encode(&new_bundle))
}

/// The cached data key, exactly as it was stored, or `NotUnlocked` when no
/// key is cached.
pub fn vault_get_data_key(cache: &CredentialCache) -> (r: Result<String, VaultError>)
    ensures
        cache@.contains_key(spec_vault_data_key_name()) ==> r is Ok && r->Ok_0@
            == cache@[spec_vault_data_key_name()],
        !cache@.contains_key(spec_vault_data_key_name()) ==> r == Err::<String, VaultError>(
            VaultError::NotUnlocked,
        ),
{
    match cache.get(vault_data_key_name()) {
        Some(v) => Ok(v.clone()),
        None => Err(VaultError::NotUnlocked),
    }
}

/// Drops the cached data key. Locking an already-locked vault succeeds.
pub fn vault_lock(cache: &mut CredentialCache) -> (r: Result<(), VaultError>)
    ensures
        r is Ok,
        final(cache)@ == old(cache)@.remove(spec_vault_data_key_name()),
{
    cache.delete(vault_data_key_name());
    Ok(())
}

/// Round-trip law of the bundle layout: a bundle assembled exactly as
/// `vault_initialize` assembles one — salt, then nonce, then the seal of
/// the data key under the wrapping key that the passphrase and salt derive
/// — opens to that same data key under that same passphrase. Together with
/// `vault_unlock`'s success contract, unlocking what initialize returned
/// recovers the key initialize cached.
pub proof fn lemma_bundle_roundtrip(
    pass: Seq<char>,
    salt: Seq<u8>,
    nonce: Seq<u8>,
    dk: Seq<u8>,
    sealed: Seq<u8>,
)
    requires
        salt.len() == 16,
        nonce.len() == 12,
        sealed == aead_seal(wrapping_key_of(pass, salt), nonce, dk),
        sealed.len() == dk.len() + 16,
    ensures
        bundle_opens_to(pass, salt + (nonce + sealed), dk),
{
    lemma_payload_roundtrip(wrapping_key_of(pass, salt), nonce, dk, sealed);
    let b = salt + (nonce + sealed);
    assert(b.subrange(0, 16) =~= salt);
    assert(b.subrange(16, b.len() as int) =~= nonce + sealed);
}

} // verus!
