use remoteapp::crypto::{decrypt, encrypt, encrypt_with_nonce, CryptoError, EncryptedPayload, MasterPassword, VaultKey, VaultMetadata};
use remoteapp::sync::{compare_versions, DatabasePassword, MemorySyncStore, MergeResult, PostgresConfig, SyncError, SyncRecord};
use remoteapp::crypto::{KeyStorage, MemoryKeyStorage};
use remoteapp::sync::{now_ms, timestamp_ms};
use remoteapp::model::{ProfileId, Secret};

#[test]
fn vault_round_trip_and_wrong_password_fail() {
    let password = MasterPassword::new("correct horse battery staple".to_string());
    let (metadata, key) = VaultMetadata::create(&password).unwrap();
    let plaintext = br#"{"host":"192.0.2.10","password":"secret"}"#;
    let encrypted = encrypt(&key, b"profile/1/1", plaintext).unwrap();
    assert_eq!(decrypt(&key, b"profile/1/1", &encrypted).unwrap(), plaintext);
    assert!(decrypt(&key, b"profile/1/2", &encrypted).is_err());
    assert_eq!(metadata.unlock(&password).unwrap().as_bytes(), key.as_bytes());
    assert!(metadata.unlock(&MasterPassword::new("wrong".to_string())).is_err());
}

#[test]
fn encoded_envelope_round_trips() {
    let password = MasterPassword::new("test".to_string());
    let (_, key) = VaultMetadata::create(&password).unwrap();
    let encrypted = encrypt(&key, b"aad", b"payload").unwrap();
    let decoded = EncryptedPayload::decode_encoded(&encrypted.encoded()).unwrap();
    assert_eq!(decrypt(&key, b"aad", &decoded).unwrap(), b"payload");
}

fn record(revision: i64) -> SyncRecord {
    SyncRecord {
        profile_id: 1,
        revision,
        updated_at_ms: revision,
        updated_by_device: 2,
        deleted: false,
        nonce: vec![0; 24],
        ciphertext: vec![0; 16],
    }
}

#[test]
fn newer_remote_version_is_applied() {
    assert!(matches!(compare_versions(&record(1), &record(2)), MergeResult::AppliedRemote(_)));
}

#[test]
fn equal_version_with_different_payload_is_a_conflict() {
    let mut remote = record(1);
    remote.ciphertext[0] = 1;
    assert!(matches!(compare_versions(&record(1), &remote), MergeResult::Conflict { .. }));
}

#[test]
fn missing_remote_version_is_not_fabricated_as_a_conflict() {
    let mut store = MemorySyncStore::default();
    let result = store.apply_local(record(1), Some(1)).unwrap();
    assert!(matches!(result, MergeResult::MissingRemote { .. }));
}

#[test]
fn memory_store_rejects_stale_revision() {
    let mut store = MemorySyncStore::default();
    store.insert(record(2)).unwrap();
    assert!(store.insert(record(1)).is_err());
}

// The library's own cases.

#[test]
fn empty_master_password_is_refused() {
    let empty = MasterPassword::new(String::new());
    assert!(matches!(VaultMetadata::create(&empty), Err(CryptoError::EmptyMasterPassword)));
    let (metadata, _) = VaultMetadata::create(&MasterPassword::new("pw".to_string())).unwrap();
    assert!(matches!(metadata.unlock(&empty), Err(CryptoError::EmptyMasterPassword)));
    let mut other_version = metadata.clone();
    other_version.version = 9;
    assert!(matches!(
        other_version.unlock(&MasterPassword::new("pw".to_string())),
        Err(CryptoError::UnsupportedVersion(9))
    ));
}

#[test]
fn sealing_is_not_the_identity() {
    let key = VaultKey::from_bytes([7; 32]);
    let nonce = [3; 24];
    let sealed = encrypt_with_nonce(&key, b"aad", b"plain text", nonce).unwrap();
    assert_eq!(sealed.nonce, nonce);
    assert_eq!(sealed.ciphertext.len(), b"plain text".len() + 16);
    assert_ne!(&sealed.ciphertext[..10], b"plain text");
    // The same key, nonce and input seal to the same bytes.
    let again = encrypt_with_nonce(&key, b"aad", b"plain text", nonce).unwrap();
    assert_eq!(sealed.ciphertext, again.ciphertext);
    assert_eq!(decrypt(&key, b"aad", &sealed).unwrap(), b"plain text");
    let other_key = VaultKey::from_bytes([8; 32]);
    assert!(matches!(decrypt(&other_key, b"aad", &sealed), Err(CryptoError::AuthenticationFailed)));
}

#[test]
fn decrypt_rejects_malformed_payloads() {
    let key = VaultKey::from_bytes([1; 32]);
    let short = EncryptedPayload { version: 1, nonce: [0; 24], ciphertext: vec![0; 15] };
    assert!(decrypt(&key, b"", &short).is_err());
    let future = EncryptedPayload { version: 2, nonce: [0; 24], ciphertext: vec![0; 32] };
    assert!(matches!(decrypt(&key, b"", &future), Err(CryptoError::UnsupportedVersion(2))));
    assert!(matches!(EncryptedPayload::decode_encoded("not base64!"), Err(CryptoError::Base64(_))));
    assert!(EncryptedPayload::decode_encoded("AQID").is_err());
}

#[test]
fn encoded_payload_is_standard_base64() {
    let payload = EncryptedPayload { version: 1, nonce: [0; 24], ciphertext: vec![255; 2] };
    assert_eq!(payload.encoded(), "AQAAAAAAAAAAAAAAAAAAAAAAAAAAAAAAAP//");
    let decoded = EncryptedPayload::decode_encoded(&payload.encoded()).unwrap();
    assert_eq!(decoded.version, 1);
    assert_eq!(decoded.ciphertext, vec![255, 255]);
}

#[test]
fn generated_keys_differ() {
    let a = VaultKey::generate().unwrap();
    let b = VaultKey::generate().unwrap();
    assert_ne!(a.as_bytes(), b.as_bytes());
}

#[test]
fn merge_decisions() {
    assert!(matches!(compare_versions(&record(2), &record(2)), MergeResult::NoChange));
    assert!(matches!(compare_versions(&record(3), &record(2)), MergeResult::Conflict { .. }));
    let mut other = record(5);
    other.profile_id = 9;
    assert!(matches!(compare_versions(&record(1), &other), MergeResult::Conflict { .. }));
}

#[test]
fn applying_local_changes_bumps_the_revision() {
    let mut store = MemorySyncStore::new();
    assert!(matches!(store.apply_local(record(1), None).unwrap(), MergeResult::AppliedRemote(_)));
    match store.apply_local(record(7), Some(1)).unwrap() {
        MergeResult::AppliedRemote(stored) => assert_eq!(stored.revision, 2),
        other => panic!("unexpected {other:?}"),
    }
    assert_eq!(store.get(1).unwrap().revision, 2);
    assert!(matches!(store.apply_local(record(7), Some(1)).unwrap(), MergeResult::Conflict { .. }));
    assert_eq!(store.get(1).unwrap().revision, 2);
    assert!(store.get(5).is_none());
    let mut second = record(1);
    second.profile_id = 0;
    store.insert(second).unwrap();
    let ids: Vec<u128> = store.records().iter().map(|r| r.profile_id).collect();
    assert_eq!(ids, vec![0, 1]);
}

#[test]
fn invalid_records_are_refused() {
    let mut store = MemorySyncStore::new();
    let mut bad = record(1);
    bad.nonce = vec![0; 12];
    match store.insert(bad) {
        Err(SyncError::InvalidRecord(m)) => assert_eq!(m, "nonce must be 24 bytes"),
        other => panic!("unexpected {other:?}"),
    }
    match record(0).validate() {
        Err(e) => assert_eq!(e.message(), "invalid sync record: revision must be positive"),
        Ok(()) => panic!("a revision of zero is invalid"),
    }
    let mut short = record(1);
    short.ciphertext = vec![0; 4];
    assert!(store.apply_local(short, None).is_err());
    assert!(store.records().is_empty());
}

#[test]
fn postgres_config_is_checked() {
    let config = PostgresConfig {
        host: "db".into(),
        port: 5432,
        database: "remoteapp".into(),
        username: "sync".into(),
        password: DatabasePassword::new("secret".to_string()),
    };
    assert!(config.validate().is_ok());
    assert_eq!(config.password.expose(), "secret");
    let no_port = PostgresConfig { port: 0, ..config.clone() };
    assert!(matches!(no_port.validate(), Err(SyncError::InvalidRecord(m)) if m == "PostgreSQL port must be non-zero"));
    let no_host = PostgresConfig { host: "  ".into(), ..config };
    assert!(no_host.validate().is_err());
}

#[test]
fn memory_key_storage_keeps_one_key() {
    let storage = MemoryKeyStorage::new();
    assert!(storage.load().unwrap().is_none());
    let key = VaultKey::from_bytes([9; 32]);
    storage.save(&key).unwrap();
    assert_eq!(storage.load().unwrap().unwrap().as_bytes(), &[9; 32]);
    storage.clear().unwrap();
    assert!(storage.load().unwrap().is_none());
}

#[test]
fn timestamps_saturate() {
    assert_eq!(timestamp_ms(Some(1_700_000_000_000)), 1_700_000_000_000);
    assert_eq!(timestamp_ms(Some(u128::MAX)), i64::MAX);
    assert_eq!(timestamp_ms(None), i64::MAX);
    assert!(now_ms() > 1_600_000_000_000);
}

#[test]
fn crypto_errors_have_messages() {
    assert_eq!(CryptoError::UnsupportedVersion(3).message(), "unsupported encryption envelope version 3");
    assert_eq!(CryptoError::AuthenticationFailed.message(), "ciphertext authentication failed");
    assert_eq!(CryptoError::Kdf("bad".into()).message(), "key derivation failed: bad");
    match EncryptedPayload::decode_encoded("***") {
        Err(e) => assert!(e.message().starts_with("base64 decoding failed: ") && e.message().len() > 24),
        Ok(_) => panic!("not base64"),
    }
}

#[test]
fn passwords_convert_from_strings() {
    let password = MasterPassword::from("hunter2".to_string());
    assert_eq!(password.expose(), "hunter2");
    assert!(!password.is_empty());
    let secret = Secret::from("pw".to_string());
    assert_eq!(secret.expose(), "pw");
}

#[test]
fn vault_metadata_from_given_values() {
    let key = VaultKey::from_bytes([5; 32]);
    let password = MasterPassword::new("pw".to_string());
    let meta = VaultMetadata::create_from(&password, [1; 16], &key, [2; 24]).unwrap();
    assert_eq!(meta.version, 1);
    assert_eq!(meta.salt, [1; 16]);
    assert_eq!(meta.wrapped_key.nonce, [2; 24]);
    assert_eq!(meta.unlock(&password).unwrap().as_bytes(), &[5; 32]);
    assert!(matches!(
        VaultMetadata::create_from(&MasterPassword::new(String::new()), [1; 16], &key, [2; 24]),
        Err(CryptoError::EmptyMasterPassword)
    ));
    assert!(matches!(
        meta.unlock(&MasterPassword::new("other".to_string())),
        Err(CryptoError::AuthenticationFailed)
    ));
    let mut short = meta.clone();
    short.wrapped_key.ciphertext.truncate(4);
    assert!(matches!(short.unlock(&password), Err(CryptoError::MalformedEnvelope)));
    assert_eq!(key.clone().as_bytes(), key.as_bytes());
}

#[test]
fn profile_ids_are_version_4_uuids() {
    let id = ProfileId::new().unwrap().as_u128();
    assert_eq!((id >> 76) & 0xf, 4);
    assert_eq!((id >> 62) & 0x3, 2);
    assert_ne!(ProfileId::new().unwrap(), ProfileId::new().unwrap());
}
