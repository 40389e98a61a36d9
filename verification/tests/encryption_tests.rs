use mnemo_core::encryption::{is_encrypted, EnvelopeEncryptor};

fn test_key() -> [u8; 32] {
    let mut k = [0u8; 32];
    for (i, b) in k.iter_mut().enumerate() {
        *b = i as u8;
    }
    k
}

#[test]
fn test_is_encrypted_detection() {
    assert!(!is_encrypted(r#"{"name":"Alice"}"#));
    assert!(is_encrypted(r#"{"_encrypted":true,"_ciphertext":"abc"}"#));
}

#[test]
fn encrypt_decrypt_roundtrip() {
    let enc = EnvelopeEncryptor::new(test_key(), "test-key-001".to_string());
    let plaintext = r#"{"name":"Alice","email":"alice@example.com"}"#;
    let env = enc.encrypt(plaintext).unwrap();
    assert!(env.encrypted);
    assert_eq!(env.key_id, "test-key-001");
    assert_eq!(env.algorithm, "AES-256-GCM");
    assert!(!env.ciphertext.contains("Alice"));
    assert_eq!(enc.decrypt(&env).unwrap(), plaintext);
    let again = enc.encrypt(plaintext).unwrap();
    assert_ne!(env.ciphertext, again.ciphertext);
}

#[test]
fn wrong_key_and_tampering_fail() {
    let enc1 = EnvelopeEncryptor::new(test_key(), "key-1".to_string());
    let mut wrong = test_key();
    wrong[0] ^= 0xFF;
    let enc2 = EnvelopeEncryptor::new(wrong, "key-2".to_string());
    let env = enc1.encrypt("secret data").unwrap();
    assert!(enc2.decrypt(&env).is_err());
    let mut tampered = env.clone();
    tampered.ciphertext = format!("AAAA{}", tampered.ciphertext);
    assert!(enc1.decrypt(&tampered).is_err());
    let mut unmarked = env.clone();
    unmarked.encrypted = false;
    assert!(enc1.decrypt(&unmarked).is_err());
    let mut short_nonce = env;
    short_nonce.nonce = "AAAA".into();
    assert!(enc1.decrypt_checked(&short_nonce).is_none());
}

#[test]
fn from_base64_checks_length() {
    let k = EnvelopeEncryptor::from_base64("AAECAwQFBgcICQoLDA0ODxAREhMUFRYXGBkaGxwdHh8=", "k1".into()).unwrap();
    let env = k.encrypt("test").unwrap();
    assert_eq!(k.decrypt(&env).unwrap(), "test");
    let err = EnvelopeEncryptor::from_base64("AAAAAAAAAAAAAAAAAAAAAA==", "k1".into()).err().unwrap();
    assert_eq!(err, mnemo_core::MnemoError::Config("Master key must be exactly 32 bytes (got 16)".into()));
    assert!(EnvelopeEncryptor::from_base64("not-valid-base64!!!", "k1".into()).is_err());
}

#[test]
fn test_encrypt_decrypt_roundtrip() {
    let enc = EnvelopeEncryptor::new(test_key(), "test-key-001".to_string());
    let plaintext = r#"{"name":"Alice","email":"alice@example.com"}"#;
    let encrypted = enc.encrypt(plaintext).unwrap();
    assert!(encrypted.encrypted);
    assert!(!encrypted.ciphertext.contains("Alice"));
    assert!(!encrypted.dek_ciphertext.contains("Alice"));
    let decrypted = enc.decrypt(&encrypted).unwrap();
    assert_eq!(plaintext, decrypted);
}

#[test]
fn test_different_encryptions_produce_different_ciphertext() {
    let enc = EnvelopeEncryptor::new(test_key(), "test-key-001".to_string());
    let plaintext = "hello world";
    let a = enc.encrypt(plaintext).unwrap();
    let b = enc.encrypt(plaintext).unwrap();
    assert_ne!(a.ciphertext, b.ciphertext);
    assert_ne!(a.nonce, b.nonce);
    assert_eq!(enc.decrypt(&a).unwrap(), plaintext);
    assert_eq!(enc.decrypt(&b).unwrap(), plaintext);
}

#[test]
fn test_wrong_key_fails_decryption() {
    let enc1 = EnvelopeEncryptor::new(test_key(), "key-1".to_string());
    let mut wrong_key = test_key();
    wrong_key[0] ^= 0xFF;
    let enc2 = EnvelopeEncryptor::new(wrong_key, "key-2".to_string());
    let encrypted = enc1.encrypt("secret data").unwrap();
    let result = enc2.decrypt(&encrypted);
    assert!(result.is_err());
}

#[test]
fn test_from_base64_valid() {
    // Base64 of the bytes 0, 1, …, 31.
    let b64 = "AAECAwQFBgcICQoLDA0ODxAREhMUFRYXGBkaGxwdHh8=";
    let enc = EnvelopeEncryptor::from_base64(b64, "k1".to_string()).unwrap();
    let ct = enc.encrypt("test").unwrap();
    let pt = enc.decrypt(&ct).unwrap();
    assert_eq!(pt, "test");
}

#[test]
fn test_from_base64_wrong_length() {
    let result = EnvelopeEncryptor::from_base64("AAAAAAAAAAAAAAAAAAAAAA==", "k1".to_string());
    assert!(result.is_err());
    assert!(result.err().unwrap().to_string().contains("32 bytes"));
}

#[test]
fn test_from_base64_invalid_base64() {
    let result = EnvelopeEncryptor::from_base64("not-valid-base64!!!", "k1".to_string());
    assert!(result.is_err());
}

#[test]
fn test_encrypt_large_document() {
    let enc = EnvelopeEncryptor::new(test_key(), "test-key-001".to_string());
    let large = "x".repeat(1_000_000);
    let encrypted = enc.encrypt(&large).unwrap();
    let decrypted = enc.decrypt(&encrypted).unwrap();
    assert_eq!(large, decrypted);
}

#[test]
fn test_tampered_ciphertext_fails() {
    let enc = EnvelopeEncryptor::new(test_key(), "test-key-001".to_string());
    let mut encrypted = enc.encrypt("sensitive data").unwrap();
    encrypted.ciphertext = format!("AAAA{}", encrypted.ciphertext);
    let result = enc.decrypt(&encrypted);
    assert!(result.is_err());
}

#[test]
fn test_envelope_contains_key_id() {
    let enc = EnvelopeEncryptor::new(test_key(), "kek-2025-q1".to_string());
    let encrypted = enc.encrypt("data").unwrap();
    assert!(encrypted.key_id.contains("kek-2025-q1"));
}

#[test]
fn short_nonce_reports_earlier_failures() {
    let enc1 = EnvelopeEncryptor::new(test_key(), "key-1".to_string());
    let mut wrong = test_key();
    wrong[0] ^= 0xFF;
    let enc2 = EnvelopeEncryptor::new(wrong, "key-2".to_string());
    let mut env = enc1.encrypt("secret data").unwrap();
    env.nonce = "AAAA".into();
    assert_eq!(
        enc2.decrypt_checked(&env),
        Some(Err(mnemo_core::MnemoError::Internal("DEK unwrap failed — wrong master key or corrupted data".into())))
    );
    assert_eq!(
        enc2.decrypt(&env),
        Err(mnemo_core::MnemoError::Internal("DEK unwrap failed — wrong master key or corrupted data".into()))
    );
    let mut unmarked = env.clone();
    unmarked.encrypted = false;
    assert_eq!(
        enc1.decrypt(&unmarked),
        Err(mnemo_core::MnemoError::Internal("Document is not encrypted (marker is false)".into()))
    );
    let mut short_blob = env.clone();
    short_blob.dek_ciphertext = "AAAA".into();
    assert_eq!(
        enc1.decrypt(&short_blob),
        Err(mnemo_core::MnemoError::Internal("DEK blob too short (expected nonce + wrapped key)".into()))
    );
    assert!(enc1.decrypt_checked(&env).is_none());
}

#[test]
fn encrypt_with_uses_the_given_key_and_nonces() {
    let enc = EnvelopeEncryptor::new(test_key(), "key-1".to_string());
    let a = enc.encrypt_with("hello", [7u8; 32], [1u8; 12], [2u8; 12]).unwrap();
    let b = enc.encrypt_with("hello", [7u8; 32], [1u8; 12], [2u8; 12]).unwrap();
    assert_eq!((&a.dek_ciphertext, &a.nonce, &a.ciphertext), (&b.dek_ciphertext, &b.nonce, &b.ciphertext));
    assert_eq!(a.nonce, "AQEBAQEBAQEBAQEB");
    assert!(a.dek_ciphertext.starts_with("AgICAgICAgICAgIC"));
    assert_eq!(enc.decrypt(&a).unwrap(), "hello");
    let c = enc.encrypt_with("hello", [8u8; 32], [1u8; 12], [2u8; 12]).unwrap();
    assert_ne!(a.ciphertext, c.ciphertext);
    assert_ne!(a.dek_ciphertext, c.dek_ciphertext);
    assert_eq!(enc.decrypt(&c).unwrap(), "hello");
}
