use kiro_vault::crypto::{decrypt_optional, decrypt_string, encrypt_optional, encrypt_string, derive_key, EncryptedData};
use kiro_vault::errors::CryptoError;
use base64::Engine;

#[test]
fn test_encrypt_decrypt() {
    let machine_id = "test-machine-id-12345";
    let plaintext = "aor-secret-refresh-token-abcdefg";

    let encrypted = encrypt_string(plaintext, machine_id).unwrap();
    assert!(!encrypted.ciphertext.is_empty());
    assert!(!encrypted.nonce.is_empty());

    let decrypted = decrypt_string(&encrypted, machine_id).unwrap();
    assert_eq!(decrypted, plaintext);
}

#[test]
fn test_wrong_machine_id() {
    let machine_id1 = "machine-1";
    let machine_id2 = "machine-2";
    let plaintext = "secret-data";

    let encrypted = encrypt_string(plaintext, machine_id1).unwrap();

    let result = decrypt_string(&encrypted, machine_id2);
    assert!(result.is_err());
}

#[test]
fn test_encrypt_optional() {
    let machine_id = "test-machine";

    let value = Some("token".to_string());
    let encrypted = encrypt_optional(&value, machine_id).unwrap();
    assert!(encrypted.is_some());

    let decrypted = decrypt_optional(&encrypted, machine_id).unwrap();
    assert_eq!(decrypted, value);

    let none_value: Option<String> = None;
    let encrypted_none = encrypt_optional(&none_value, machine_id).unwrap();
    assert!(encrypted_none.is_none());
}

#[test]
fn test_empty_string() {
    let machine_id = "test-machine";
    let result = encrypt_string("", machine_id);
    assert!(result.is_err());
}

#[test]
fn wrong_key_reports_authentication_error() {
    let encrypted = encrypt_string("top secret", "device-a").unwrap();
    match decrypt_string(&encrypted, "device-b") {
        Err(CryptoError::Authentication) => {}
        other => panic!("expected authentication failure, got {:?}", other),
    }
}

#[test]
fn empty_optional_value_becomes_absent() {
    let value = Some(String::new());
    let encrypted = encrypt_optional(&value, "device").unwrap();
    assert!(encrypted.is_none());
}

#[test]
fn decrypt_optional_absent_stays_absent() {
    let decrypted = decrypt_optional(&None, "device").unwrap();
    assert!(decrypted.is_none());
}

#[test]
fn tampered_ciphertext_is_rejected() {
    let encrypted = encrypt_string("hold the line", "device-c").unwrap();
    let mut raw = base64::engine::general_purpose::STANDARD
        .decode(&encrypted.ciphertext)
        .expect("ciphertext must be valid base64");
    raw[0] ^= 0x01;
    let tampered = EncryptedData {
        ciphertext: base64::engine::general_purpose::STANDARD.encode(&raw),
        nonce: encrypted.nonce.clone(),
    };
    match decrypt_string(&tampered, "device-c") {
        Err(CryptoError::Authentication) => {}
        other => panic!("expected authentication failure, got {:?}", other),
    }
}

#[test]
fn nonce_is_twelve_bytes_of_base64() {
    let encrypted = encrypt_string("payload", "device-d").unwrap();
    let nonce = base64::engine::general_purpose::STANDARD
        .decode(&encrypted.nonce)
        .expect("nonce must be valid base64");
    assert_eq!(nonce.len(), 12);
}

#[test]
fn ciphertext_is_plaintext_plus_tag() {
    let plaintext = "payload";
    let encrypted = encrypt_string(plaintext, "device-d").unwrap();
    let ct = base64::engine::general_purpose::STANDARD
        .decode(&encrypted.ciphertext)
        .expect("ciphertext must be valid base64");
    assert_eq!(ct.len(), plaintext.len() + 16);
}

#[test]
fn derived_key_is_deterministic_and_device_bound() {
    let k1 = derive_key("device-e");
    let k2 = derive_key("device-e");
    let k3 = derive_key("device-f");
    assert_eq!(k1, k2);
    assert_eq!(k1.len(), 32);
    assert_ne!(k1, k3);
}

#[test]
fn malformed_base64_reports_encoding_error() {
    let bad = EncryptedData { ciphertext: "!!!not base64!!!".to_string(), nonce: "AAAA".to_string() };
    match decrypt_string(&bad, "device-g") {
        Err(CryptoError::Encoding) => {}
        other => panic!("expected encoding failure, got {:?}", other),
    }
}
