use aes_gcm::aead::{Aead, KeyInit};
use base64::Engine as _;
use rsave::encryption::{decrypt, derive_key, encrypt, encrypt_then_decrypt, DecryptError};

fn key_from(password: &str, salt: &[u8]) -> [u8; 32] {
    derive_key(password, salt)
}

const SALT: [u8; 16] = [7u8; 16];

#[test]
fn round_trip_returns_plaintext() {
    let key = key_from("hunter2", &SALT);
    let blob = encrypt(&key, "the quick brown fox");
    assert_eq!(decrypt(&key, &blob).unwrap(), "the quick brown fox");
}

#[test]
fn round_trip_empty_plaintext() {
    let key = key_from("hunter2", &SALT);
    let blob = encrypt(&key, "");
    assert_eq!(decrypt(&key, &blob).unwrap(), "");
}

#[test]
fn round_trip_helper_returns_plaintext() {
    let key = key_from("pw", &SALT);
    assert_eq!(encrypt_then_decrypt(&key, "payload").unwrap(), "payload");
}

#[test]
fn derive_key_is_deterministic() {
    assert_eq!(key_from("abc", &SALT), key_from("abc", &SALT));
    assert_ne!(key_from("abc", &SALT), key_from("abd", &SALT));
    assert_ne!(key_from("abc", &SALT), key_from("abc", &[8u8; 16]));
}

#[test]
fn encrypt_twice_differs() {
    let key = key_from("pw", &SALT);
    let b1 = encrypt(&key, "same plaintext");
    let b2 = encrypt(&key, "same plaintext");
    assert_ne!(b1, b2);
}

#[test]
fn blob_has_two_base64_fields() {
    let key = key_from("pw", &SALT);
    let blob = encrypt(&key, "x");
    let parts: Vec<&str> = blob.splitn(2, ':').collect();
    assert_eq!(parts.len(), 2);
    let nonce = base64::engine::general_purpose::STANDARD
        .decode(parts[0])
        .unwrap();
    assert_eq!(nonce.len(), 12);
    base64::engine::general_purpose::STANDARD
        .decode(parts[1])
        .unwrap();
}

#[test]
fn decrypt_missing_delimiter() {
    let key = key_from("pw", &SALT);
    assert_eq!(
        decrypt(&key, "no delimiter here"),
        Err(DecryptError::MissingDelimiter)
    );
}

#[test]
fn decrypt_invalid_encoding() {
    let key = key_from("pw", &SALT);
    assert_eq!(
        decrypt(&key, "!!!not base64:AAAA"),
        Err(DecryptError::InvalidEncoding)
    );
    assert_eq!(
        decrypt(&key, "AAAA:%%%"),
        Err(DecryptError::InvalidEncoding)
    );
}

#[test]
fn decrypt_invalid_nonce_length() {
    let key = key_from("pw", &SALT);
    let short = base64::engine::general_purpose::STANDARD.encode([1u8; 5]);
    let ct = base64::engine::general_purpose::STANDARD.encode([0u8; 32]);
    let blob = format!("{}:{}", short, ct);
    assert_eq!(decrypt(&key, &blob), Err(DecryptError::InvalidNonce));
}

#[test]
fn decrypt_with_wrong_key_fails_authentication() {
    let key = key_from("right password", &SALT);
    let wrong = key_from("wrong password", &SALT);
    let blob = encrypt(&key, "secret");
    assert_eq!(decrypt(&wrong, &blob), Err(DecryptError::AuthFailed));
}

#[test]
fn decrypt_tampered_blob_fails_authentication() {
    let key = key_from("pw", &SALT);
    let blob = encrypt(&key, "secret");
    let parts: Vec<&str> = blob.splitn(2, ':').collect();
    let mut ct = base64::engine::general_purpose::STANDARD
        .decode(parts[1])
        .unwrap();
    ct[0] ^= 0x01;
    let tampered = format!(
        "{}:{}",
        parts[0],
        base64::engine::general_purpose::STANDARD.encode(&ct)
    );
    assert_eq!(decrypt(&key, &tampered), Err(DecryptError::AuthFailed));
}

#[test]
fn decrypt_non_text_plaintext_is_rejected() {
    let key = key_from("pw", &SALT);
    let cipher = aes_gcm::Aes256Gcm::new(aes_gcm::Key::<aes_gcm::Aes256Gcm>::from_slice(&key));
    let nonce = [9u8; 12];
    let not_utf8: [u8; 2] = [0xff, 0xfe];
    let ct = cipher
        .encrypt(aes_gcm::Nonce::from_slice(&nonce), not_utf8.as_slice())
        .unwrap();
    let blob = format!(
        "{}:{}",
        base64::engine::general_purpose::STANDARD.encode(nonce),
        base64::engine::general_purpose::STANDARD.encode(&ct)
    );
    assert_eq!(decrypt(&key, &blob), Err(DecryptError::InvalidText));
}
