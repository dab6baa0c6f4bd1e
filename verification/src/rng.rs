//! The random source. Nonces, salts and key material all come from the
//! operating system's RNG; nothing can be promised of the bytes beyond their
//! count, and no two calls are related.

use vstd::prelude::*;

use rand::RngCore;

verus! {

/// Relies on rand's `OsRng::fill_bytes`: it fills the buffer from the
/// operating system's random source. Nothing holds of the values; the
/// process aborts if that source fails, as the surrounding application did.
#[verifier::external_body]
pub(crate) fn random_bytes(n: usize) -> (r: Vec<u8>)
    ensures
        r@.len() == n,
{
    let mut buf = vec![0u8; n];
    rand::rngs::OsRng.fill_bytes(&mut buf);
    buf
}

} // verus!
