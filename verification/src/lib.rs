//! An envelope-encryption vault for a desktop application: a passphrase-gated
//! data key whose wrapped form can live in untrusted storage, an AEAD text
//! encryption service backed by a cached key, and rotated database backups.
//!
//! The credential store is modelled by [`cache::CredentialCache`], an
//! in-memory map with a verified view; the binding to a platform store is the
//! caller's concern. Calls into the AEAD cipher, the key-derivation function,
//! the base64 codec and the random source stand behind trusted wrappers whose
//! contracts name what those crates compute.

pub mod aead;
pub mod b64;
pub mod backup;
pub mod cache;
pub mod chars;
pub mod errors;
pub mod kdf;
pub mod rng;
pub mod textenc;
pub mod util;
pub mod vault;
