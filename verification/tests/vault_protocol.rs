use base64::Engine;
use tavern_vault::cache::CredentialCache;
use tavern_vault::errors::VaultError;
use tavern_vault::vault::{
    vault_get_data_key, vault_initialize, vault_lock, vault_rewrap, vault_status, vault_unlock,
};

#[test]
fn initialize_then_unlock_recovers_the_cached_key() {
    let mut cache = CredentialCache::new();
    let bundle = vault_initialize(&mut cache, "correct-horse").unwrap();
    let key_at_init = vault_get_data_key(&cache).unwrap();

    vault_lock(&mut cache).unwrap();
    assert_eq!(vault_get_data_key(&cache), Err(VaultError::NotUnlocked));

    vault_unlock(&mut cache, "correct-horse", &bundle).unwrap();
    assert_eq!(vault_get_data_key(&cache).unwrap(), key_at_init);

    let raw = base64::engine::general_purpose::STANDARD
        .decode(key_at_init.as_bytes())
        .unwrap();
    assert_eq!(raw.len(), 32);
}

#[test]
fn bundle_is_76_bytes_of_salt_nonce_ciphertext_tag() {
    let mut cache = CredentialCache::new();
    let bundle = vault_initialize(&mut cache, "correct-horse").unwrap();
    let raw = base64::engine::general_purpose::STANDARD
        .decode(bundle.as_bytes())
        .unwrap();
    assert_eq!(raw.len(), 16 + 12 + 32 + 16);
}

#[test]
fn wrong_passphrase_always_fails() {
    let mut cache = CredentialCache::new();
    let bundle = vault_initialize(&mut cache, "correct-horse").unwrap();
    assert_eq!(
        vault_unlock(&mut cache, "wrong-password", &bundle),
        Err(VaultError::AuthenticationFailed)
    );
}

#[test]
fn tampered_bundle_never_unlocks() {
    let mut cache = CredentialCache::new();
    let bundle = vault_initialize(&mut cache, "correct-horse").unwrap();
    let raw = base64::engine::general_purpose::STANDARD
        .decode(bundle.as_bytes())
        .unwrap();
    // One position in each region: salt, nonce, ciphertext, tag.
    for &pos in &[0usize, 15, 20, 40, 70, 75] {
        let mut bent = raw.clone();
        bent[pos] ^= 0x01;
        let reencoded = base64::engine::general_purpose::STANDARD.encode(&bent);
        assert_eq!(
            vault_unlock(&mut cache, "correct-horse", &reencoded),
            Err(VaultError::AuthenticationFailed),
            "flipping byte {} must not unlock",
            pos
        );
    }
}

#[test]
fn rewrap_preserves_the_data_key() {
    let mut cache = CredentialCache::new();
    let bundle = vault_initialize(&mut cache, "old-passphrase").unwrap();
    let new_bundle = vault_rewrap("old-passphrase", "new-passphrase", &bundle).unwrap();

    vault_unlock(&mut cache, "old-passphrase", &bundle).unwrap();
    let key_old = vault_get_data_key(&cache).unwrap();

    vault_unlock(&mut cache, "new-passphrase", &new_bundle).unwrap();
    let key_new = vault_get_data_key(&cache).unwrap();

    assert_eq!(key_old, key_new);
}

#[test]
fn rewrap_rejects_weak_new_passphrase_and_wrong_old() {
    let mut cache = CredentialCache::new();
    let bundle = vault_initialize(&mut cache, "old-passphrase").unwrap();
    assert_eq!(
        vault_rewrap("old-passphrase", "short", &bundle),
        Err(VaultError::WeakPassphrase)
    );
    assert_eq!(
        vault_rewrap("not-the-passphrase", "new-passphrase", &bundle),
        Err(VaultError::AuthenticationFailed)
    );
}

#[test]
fn weak_passphrase_is_rejected_before_any_caching() {
    let mut cache = CredentialCache::new();
    assert_eq!(
        vault_initialize(&mut cache, "short"),
        Err(VaultError::WeakPassphrase)
    );
    let status = vault_status(&cache).unwrap();
    assert!(!status.has_cached_key);
    assert!(!status.initialized);
    assert_eq!(vault_get_data_key(&cache), Err(VaultError::NotUnlocked));
}

#[test]
fn lock_is_idempotent() {
    let mut cache = CredentialCache::new();
    vault_initialize(&mut cache, "correct-horse").unwrap();
    assert!(vault_status(&cache).unwrap().has_cached_key);
    vault_lock(&mut cache).unwrap();
    assert!(!vault_status(&cache).unwrap().has_cached_key);
    // Locking an already-locked vault still succeeds.
    vault_lock(&mut cache).unwrap();
    assert!(!vault_status(&cache).unwrap().has_cached_key);
}

#[test]
fn malformed_bundles_give_structural_errors() {
    let mut cache = CredentialCache::new();
    assert_eq!(
        vault_unlock(&mut cache, "correct-horse", "@@not base64@@"),
        Err(VaultError::InvalidEncoding)
    );
    let short = base64::engine::general_purpose::STANDARD.encode([0u8; 16]);
    assert_eq!(
        vault_unlock(&mut cache, "correct-horse", &short),
        Err(VaultError::InvalidBundle)
    );
}

#[test]
fn failed_unlock_keeps_the_previously_cached_key() {
    let mut cache = CredentialCache::new();
    let bundle = vault_initialize(&mut cache, "correct-horse").unwrap();
    vault_lock(&mut cache).unwrap();
    vault_unlock(&mut cache, "correct-horse", &bundle).unwrap();
    let cached = vault_get_data_key(&cache).unwrap();

    assert!(vault_unlock(&mut cache, "wrong-password", &bundle).is_err());
    assert_eq!(vault_get_data_key(&cache).unwrap(), cached);
}

#[test]
fn error_messages_render() {
    assert_eq!(
        VaultError::WeakPassphrase.message(),
        "Passphrase must be at least 8 characters"
    );
    assert_eq!(VaultError::AuthenticationFailed.message(), "Invalid passphrase");
    assert_eq!(VaultError::NotUnlocked.message(), "Vault not unlocked");
    assert_eq!(VaultError::InvalidBundle.message(), "Invalid wrapped bundle");
}
