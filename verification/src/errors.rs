//! The closed taxonomy of failures shared by the vault protocol, the text
//! encryption service and the backup operations. Every error is terminal to
//! its call; callers decide whether to retry.

use vstd::prelude::*;

verus! {

/// One failure kind per boundary condition. The authentication failure is
/// also the wrong-passphrase signal and deliberately says no more than
/// "failed": which byte, salt or tag was at fault is never surfaced.
#[derive(Clone, Copy, Debug, PartialEq, Eq, Structural)]
pub enum VaultError {
    /// The credential backend could not be reached.
    StoreUnavailable,
    /// A base64 or UTF-8 decode failed.
    InvalidEncoding,
    /// An AEAD payload is structurally too short to split off a nonce.
    InvalidPayload,
    /// A vault bundle is structurally too short to split off a salt.
    InvalidBundle,
    /// The AEAD tag did not verify.
    AuthenticationFailed,
    /// The passphrase is shorter than the policy allows.
    WeakPassphrase,
    /// A decoded or unwrapped key was not exactly 32 bytes.
    InvalidKeyLength,
    /// No data key is cached.
    NotUnlocked,
    /// The database file does not exist.
    DatabaseNotFound,
    /// The named backup file does not exist.
    BackupNotFound,
    /// A copy, delete or create-directory step failed.
    FilesystemError,
}

impl VaultError {
    /// The human-readable message that the boundary renders.
    pub open spec fn spec_message(self) -> Seq<char> {
        match self {
            VaultError::StoreUnavailable => "Credential store unavailable"@,
            VaultError::InvalidEncoding => "Invalid encoding"@,
            VaultError::InvalidPayload => "Payload too short"@,
            VaultError::InvalidBundle => "Invalid wrapped bundle"@,
            VaultError::AuthenticationFailed => "Invalid passphrase"@,
            VaultError::WeakPassphrase => "Passphrase must be at least 8 characters"@,
            VaultError::InvalidKeyLength => "Invalid key length"@,
            VaultError::NotUnlocked => "Vault not unlocked"@,
            VaultError::DatabaseNotFound => "Database file not found"@,
            VaultError::BackupNotFound => "Backup file not found"@,
            VaultError::FilesystemError => "Filesystem operation failed"@,
        }
    }

    /// Renders the message for this error kind.
    pub fn message(&self) -> (r: &'static str)
        ensures
            r@ == self.spec_message(),
    {
        match self {
            VaultError::StoreUnavailable => "Credential store unavailable",
            VaultError::InvalidEncoding => "Invalid encoding",
            VaultError::InvalidPayload => "Payload too short",
            VaultError::InvalidBundle => "Invalid wrapped bundle",
            VaultError::AuthenticationFailed => "Invalid passphrase",
            VaultError::WeakPassphrase => "Passphrase must be at least 8 characters",
            VaultError::InvalidKeyLength => "Invalid key length",
            VaultError::NotUnlocked => "Vault not unlocked",
            VaultError::DatabaseNotFound => "Database file not found",
            VaultError::BackupNotFound => "Backup file not found",
            VaultError::FilesystemError => "Filesystem operation failed",
        }
    }
}

} // verus!
