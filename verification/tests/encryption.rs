use atuin_core::encryption::PASETO_V4;
use atuin_core::record::{AdditionalData, DecryptedData, Record};
use atuin_core::Error;

fn random_key() -> [u8; 32] {
    let key = rusty_paseto::core::Key::<32>::try_new_random().unwrap();
    let mut out = [0u8; 32];
    out.copy_from_slice(key.as_ref());
    out
}

fn test_ad() -> AdditionalData {
    AdditionalData {
        id: "foo".to_string(),
        version: "v0".to_string(),
        tag: "kv".to_string(),
        host: "1234".to_string(),
    }
}

#[test]
fn round_trip() {
    let key = random_key();
    let ad = test_ad();
    let data = DecryptedData(vec![1, 2, 3, 4]);

    let encrypted = PASETO_V4::encrypt(&data, &ad, &key);
    let decrypted = PASETO_V4::decrypt(&encrypted, &ad, &key).unwrap();
    assert_eq!(decrypted, data);
}

#[test]
fn same_entry_different_output() {
    let key = random_key();
    let ad = test_ad();
    let data = DecryptedData(vec![1, 2, 3, 4]);

    let encrypted = PASETO_V4::encrypt(&data, &ad, &key);
    let encrypted2 = PASETO_V4::encrypt(&data, &ad, &key);

    assert_ne!(
        encrypted.data, encrypted2.data,
        "re-encrypting the same contents should have different output due to key randomization"
    );
}

#[test]
fn cannot_decrypt_different_key() {
    let key = random_key();
    let fake_key = random_key();
    let ad = test_ad();
    let data = DecryptedData(vec![1, 2, 3, 4]);

    let encrypted = PASETO_V4::encrypt(&data, &ad, &key);
    let _ = PASETO_V4::decrypt(&encrypted, &ad, &fake_key).unwrap_err();
}

#[test]
fn cannot_decrypt_different_id() {
    let key = random_key();
    let ad = test_ad();
    let data = DecryptedData(vec![1, 2, 3, 4]);

    let encrypted = PASETO_V4::encrypt(&data, &ad, &key);

    let ad = AdditionalData {
        id: "foo1".to_string(),
        version: "v0".to_string(),
        tag: "kv".to_string(),
        host: "1234".to_string(),
    };
    let _ = PASETO_V4::decrypt(&encrypted, &ad, &key).unwrap_err();
}

#[test]
fn re_encrypt_round_trip() {
    let key1 = random_key();
    let key2 = random_key();
    let ad = test_ad();
    let data = DecryptedData(vec![1, 2, 3, 4]);

    let encrypted1 = PASETO_V4::encrypt(&data, &ad, &key1);
    let encrypted2 = PASETO_V4::re_encrypt(encrypted1.clone(), &ad, &key1, &key2).unwrap();

    // we only re-encrypt the content keys
    assert_eq!(encrypted1.data, encrypted2.data);
    assert_ne!(
        encrypted1.content_encryption_key,
        encrypted2.content_encryption_key
    );

    let decrypted = PASETO_V4::decrypt(&encrypted2, &ad, &key2).unwrap();

    assert_eq!(decrypted, data);
}

#[test]
fn full_record_round_trip() {
    let key = [0x55; 32];
    let record = Record {
        id: "1".to_owned(),
        version: "v0".to_owned(),
        tag: "kv".to_owned(),
        host: "host1".to_owned(),
        timestamp: 1687244806000000,
        parent: None,
        data: DecryptedData(vec![1, 2, 3, 4]),
    };

    let encrypted = record.encrypt(&key);

    assert!(!encrypted.data.data.is_empty());
    assert!(!encrypted.data.content_encryption_key.is_empty());
    assert_eq!(encrypted.id, "1");
    assert_eq!(encrypted.host, "host1");
    assert_eq!(encrypted.version, "v0");
    assert_eq!(encrypted.tag, "kv");
    assert_eq!(encrypted.timestamp, 1687244806000000);

    let decrypted = encrypted.decrypt(&key).unwrap();

    assert_eq!(decrypted.data.0, [1, 2, 3, 4]);
    assert_eq!(decrypted.id, "1");
    assert_eq!(decrypted.host, "host1");
    assert_eq!(decrypted.version, "v0");
    assert_eq!(decrypted.tag, "kv");
    assert_eq!(decrypted.timestamp, 1687244806000000);
}

#[test]
fn full_record_round_trip_fail() {
    let key = [0x55; 32];
    let record = Record {
        id: "1".to_owned(),
        version: "v0".to_owned(),
        tag: "kv".to_owned(),
        host: "host1".to_owned(),
        timestamp: 1687244806000000,
        parent: None,
        data: DecryptedData(vec![1, 2, 3, 4]),
    };

    let encrypted = record.encrypt(&key);

    let mut enc1 = encrypted.clone();
    enc1.host = "host2".to_owned();
    let _ = enc1
        .decrypt(&key)
        .expect_err("tampering with the host should result in auth failure");

    let mut enc2 = encrypted;
    enc2.id = "2".to_owned();
    let _ = enc2
        .decrypt(&key)
        .expect_err("tampering with the id should result in auth failure");
}

#[test]
fn wrong_key_fails_fast_as_key_mismatch() {
    let key = [0x11; 32];
    let other = [0x22; 32];
    let ad = test_ad();
    let data = DecryptedData(vec![9, 9, 9]);

    let encrypted = PASETO_V4::encrypt(&data, &ad, &key);
    assert_eq!(
        PASETO_V4::decrypt(&encrypted, &ad, &other).unwrap_err(),
        Error::KeyMismatch
    );
}

#[test]
fn tampered_footer_is_an_authentication_failure() {
    let key = [0x11; 32];
    let ad = test_ad();
    let data = DecryptedData(vec![5, 6, 7]);

    let mut encrypted = PASETO_V4::encrypt(&data, &ad, &key);
    encrypted.content_encryption_key = "{\"wpk\":\"nonsense\",\"kid\":\"nonsense\"}".to_string();
    let err = PASETO_V4::decrypt(&encrypted, &ad, &key).unwrap_err();
    assert!(err == Error::AuthenticationFailure || err == Error::KeyMismatch);
}

#[test]
fn changed_version_or_tag_fails() {
    let key = [0x33; 32];
    let ad = test_ad();
    let data = DecryptedData(vec![1, 2]);
    let encrypted = PASETO_V4::encrypt(&data, &ad, &key);

    let mut ad2 = test_ad();
    ad2.version = "v1".to_string();
    assert_eq!(
        PASETO_V4::decrypt(&encrypted, &ad2, &key).unwrap_err(),
        Error::AuthenticationFailure
    );

    let mut ad3 = test_ad();
    ad3.tag = "history".to_string();
    assert_eq!(
        PASETO_V4::decrypt(&encrypted, &ad3, &key).unwrap_err(),
        Error::AuthenticationFailure
    );

    let mut ad4 = test_ad();
    ad4.host = "12345".to_string();
    assert_eq!(
        PASETO_V4::decrypt(&encrypted, &ad4, &key).unwrap_err(),
        Error::AuthenticationFailure
    );
}

#[test]
fn re_encrypt_with_wrong_old_key_fails() {
    let key1 = [0x44; 32];
    let key2 = [0x55; 32];
    let key3 = [0x66; 32];
    let ad = test_ad();
    let data = DecryptedData(vec![8]);

    let encrypted = PASETO_V4::encrypt(&data, &ad, &key1);
    assert_eq!(
        PASETO_V4::re_encrypt(encrypted, &ad, &key3, &key2).unwrap_err(),
        Error::KeyMismatch
    );
}

#[test]
fn empty_payload_round_trips() {
    let key = random_key();
    let ad = test_ad();
    let data = DecryptedData(Vec::new());
    let encrypted = PASETO_V4::encrypt(&data, &ad, &key);
    let decrypted = PASETO_V4::decrypt(&encrypted, &ad, &key).unwrap();
    assert_eq!(decrypted.0, Vec::<u8>::new());
}
