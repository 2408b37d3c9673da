use base64::Engine;
use jottery::crypto::{CryptoService, EncryptedData};
use jottery::error::Error;

fn fixed_salt(byte: u8, len: usize) -> Vec<u8> {
    vec![byte; len]
}

#[test]
fn test_key_derivation() {
    let service = CryptoService::new();
    let password = "test_password";
    let salt = service.generate_salt();

    let key1 = service.derive_key(password, &salt, 100_000).unwrap();
    let key2 = service.derive_key(password, &salt, 100_000).unwrap();
    assert_eq!(key1, key2);

    let key3 = service.derive_key("different_password", &salt, 100_000).unwrap();
    assert_ne!(key1, key3);
}

#[test]
fn test_text_encryption_decryption() {
    let service = CryptoService::new();
    let salt = service.generate_salt();
    let key = service.derive_key("test_password", &salt, 100_000).unwrap();

    let plaintext = "Hello, World! This is a test message.";
    let encrypted = service.encrypt_text(plaintext, &key).unwrap();
    let decrypted = service.decrypt_text(&encrypted, &key).unwrap();
    assert_eq!(plaintext, decrypted);
}

#[test]
fn test_binary_encryption_decryption() {
    let service = CryptoService::new();
    let salt = service.generate_salt();
    let key = service.derive_key("test_password", &salt, 100_000).unwrap();

    let data = vec![1, 2, 3, 4, 5, 6, 7, 8, 9, 10];
    let encrypted = service.encrypt_binary(&data, &key).unwrap();
    let decrypted = service.decrypt_binary(&encrypted, &key).unwrap();
    assert_eq!(data, decrypted);
}

#[test]
fn test_wrong_key_decryption_fails() {
    let service = CryptoService::new();
    let salt = service.generate_salt();
    let key1 = service.derive_key("password1", &salt, 100_000).unwrap();
    let key2 = service.derive_key("password2", &salt, 100_000).unwrap();

    let encrypted = service.encrypt_text("Secret message", &key1).unwrap();
    assert!(service.decrypt_text(&encrypted, &key2).is_err());
}

#[test]
fn test_hash() {
    let service = CryptoService::new();
    let hash1 = service.hash("test data");
    let hash2 = service.hash("test data");
    assert_eq!(hash1, hash2);

    let hash3 = service.hash("different data");
    assert_ne!(hash1, hash3);

    assert!(base64::engine::general_purpose::STANDARD.decode(&hash1).is_ok());
}

#[test]
fn hash_of_known_text_is_its_sha256_in_base64() {
    let service = CryptoService::new();
    // SHA-256("abc"), base64-encoded.
    assert_eq!(service.hash("abc"), "ungWv48Bz+pBQUDeXa4iI7ADYaOWF3qctBD/YfIAFa0=");
}

#[test]
fn test_encrypted_data() {
    let b64 = &base64::engine::general_purpose::STANDARD;
    let data = EncryptedData::new(b64.encode(b"ciphertext"), b64.encode(b"nonce_12byte"), b64.encode(b"tag_16_bytes!!!"));
    assert!(data.validate().is_ok());

    let bad_data = EncryptedData::new("not base64!!!".to_string(), b64.encode(b"nonce"), b64.encode(b"tag"));
    assert!(bad_data.validate().is_err());
}

#[test]
fn envelope_validation_rejects_empty_parts() {
    let b64 = &base64::engine::general_purpose::STANDARD;
    assert!(EncryptedData::new(String::new(), b64.encode(b"n"), String::new()).validate().is_err());
    assert!(EncryptedData::new(b64.encode(b"c"), String::new(), String::new()).validate().is_err());
    assert!(EncryptedData::new(b64.encode(b"c"), b64.encode(b"n"), "!!".to_string()).validate().is_err());
    assert!(EncryptedData::new(b64.encode(b"c"), b64.encode(b"n"), String::new()).validate().is_ok());
}

#[test]
fn salt_of_32_bytes_is_accepted_and_31_rejected() {
    let service = CryptoService::new();
    assert!(service.derive_key("pw", &fixed_salt(7, 32), 100_000).is_ok());
    assert_eq!(service.derive_key("pw", &fixed_salt(7, 31), 100_000), Err(Error::InvalidSalt));
}

#[test]
fn low_iteration_count_is_raised_to_the_floor() {
    let service = CryptoService::new();
    let salt = fixed_salt(3, 32);
    let low = service.derive_key("pw", &salt, 99_999).unwrap();
    let floor = service.derive_key("pw", &salt, 100_000).unwrap();
    let zero = service.derive_key("pw", &salt, 0).unwrap();
    assert_eq!(low, floor);
    assert_eq!(zero, floor);
}

#[test]
fn derived_key_matches_pbkdf2_reference() {
    let service = CryptoService::new();
    let salt = fixed_salt(1, 32);
    let key = service.derive_key("password", &salt, 100_000).unwrap();
    let mut expected = [0u8; 32];
    pbkdf2::pbkdf2_hmac::<sha2::Sha256>(b"password", &salt, 100_000, &mut expected);
    assert_eq!(key, expected);
}

#[test]
fn encryption_uses_fresh_nonces_and_appends_the_tag() {
    let service = CryptoService::new();
    let key = [9u8; 32];
    let a = service.encrypt_text("same", &key).unwrap();
    let b = service.encrypt_text("same", &key).unwrap();
    assert_ne!(a.nonce, b.nonce);
    assert!(a.tag.is_empty());
    let raw = base64::engine::general_purpose::STANDARD.decode(&a.ciphertext).unwrap();
    assert_eq!(raw.len(), 4 + 16);
    assert_ne!(&raw[..4], b"same");
}

#[test]
fn detached_tag_form_also_decrypts() {
    let service = CryptoService::new();
    let key = [5u8; 32];
    let combined = service.encrypt_text("detached", &key).unwrap();
    let b64 = &base64::engine::general_purpose::STANDARD;
    let raw = b64.decode(&combined.ciphertext).unwrap();
    let (body, tag) = raw.split_at(raw.len() - 16);
    let detached = EncryptedData::new(b64.encode(body), combined.nonce.clone(), b64.encode(tag));
    assert_eq!(service.decrypt_text(&detached, &key).unwrap(), "detached");
}

#[test]
fn malformed_envelopes_fail_as_authentication_failures() {
    let service = CryptoService::new();
    let key = [5u8; 32];
    let good = service.encrypt_text("x", &key).unwrap();
    let b64 = &base64::engine::general_purpose::STANDARD;
    let bad_base64 = EncryptedData::new("***".to_string(), good.nonce.clone(), String::new());
    assert_eq!(service.decrypt_text(&bad_base64, &key), Err(Error::AuthenticationFailed));
    let short_nonce = EncryptedData::new(good.ciphertext.clone(), b64.encode([1u8; 11]), String::new());
    assert_eq!(service.decrypt_text(&short_nonce, &key), Err(Error::AuthenticationFailed));
    let mut tampered = b64.decode(&good.ciphertext).unwrap();
    tampered[0] ^= 1;
    let tampered = EncryptedData::new(b64.encode(tampered), good.nonce.clone(), String::new());
    assert_eq!(service.decrypt_text(&tampered, &key), Err(Error::AuthenticationFailed));
}

#[test]
fn envelope_json_round_trips_and_accepts_iv() {
    let service = CryptoService::new();
    let key = [4u8; 32];
    let e = service.encrypt_text("json body", &key).unwrap();
    let json = e.to_json();
    assert_eq!(json, format!("{{\"ciphertext\":\"{}\",\"nonce\":\"{}\"}}", e.ciphertext, e.nonce));
    let back = EncryptedData::from_json(&json).unwrap();
    assert_eq!(back.ciphertext, e.ciphertext);
    assert_eq!(back.nonce, e.nonce);
    assert_eq!(back.tag, "");
    assert_eq!(service.decrypt_json_text(&json, &key).unwrap(), "json body");

    let web = format!("{{\"ciphertext\":\"{}\",\"iv\":\"{}\"}}", e.ciphertext, e.nonce);
    assert_eq!(service.decrypt_json_text(&web, &key).unwrap(), "json body");
    assert!(EncryptedData::from_json("{\"ciphertext\":\"AA==\"}").is_none());
    assert_eq!(service.decrypt_json_text("not json", &key), Err(Error::AuthenticationFailed));
}
