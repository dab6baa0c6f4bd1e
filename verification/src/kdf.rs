//! The memory-hard key derivation. A wrapping key is derived from a
//! passphrase and a salt with Argon2id under its default (recommended)
//! parameters; the cost must not be weakened and derived keys are never
//! cached. `argon2id_key` names the derived bytes, a function of the
//! passphrase and salt alone.

use vstd::prelude::*;

use crate::util::four_gib;
use argon2::Argon2;
use vstd::string::StringSliceAdditionalSpecFns;
use vstd::utf8::encode_utf8;

verus! {

/// The 32 bytes that Argon2id, under argon2's default parameters, derives
/// from a passphrase and a salt. It depends on those two inputs alone.
pub uninterp spec fn argon2id_key(passphrase: Seq<u8>, salt: Seq<u8>) -> Seq<u8>;

/// The wrapping key for a passphrase and a salt; the passphrase enters the
/// derivation as its UTF-8 bytes.
pub open spec fn wrapping_key_of(passphrase: Seq<char>, salt: Seq<u8>) -> Seq<u8> {
    argon2id_key(encode_utf8(passphrase), salt)
}

/// Relies on argon2's `Argon2::hash_password_into` with default parameters:
/// the output is a function of the passphrase and salt alone, and with a
/// 16-byte salt, a 32-byte output buffer and a password under the crate's
/// 2^32 - 1 byte limit, its input validation cannot fail.
#[verifier::external_body]
pub fn derive_wrapping_key(passphrase: &str, salt: &Vec<u8>) -> (r: Vec<u8>)
    requires
        salt@.len() == 16,
        passphrase.spec_bytes().len() < four_gib(),
    ensures
        r@ == argon2id_key(passphrase.spec_bytes(), salt@),
        r@.len() == 32,
{
    let mut out = [0u8; 32];
    Argon2::default()
        .hash_password_into(passphrase.as_bytes(), salt.as_slice(), &mut out)
        .expect("argon2 accepts a 16-byte salt and a 32-byte output");
    out.to_vec()
}

} // verus!
