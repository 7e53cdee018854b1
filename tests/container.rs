use sealvault::header::{Header, HEADER_SIZE};
use sealvault::kdf::{derive_key, generate_salt};
use sealvault::{decrypt, encrypt, encrypt_with_algorithm, encrypt_with_parameters, AeadAlgorithm, SealVaultError};

#[test]
fn encrypt_decrypt_roundtrip() {
    let plaintext = b"sealvault test payload";
    let sealed = encrypt(plaintext, "test-password").expect("encrypt file");
    let opened = decrypt(&sealed, "test-password").expect("decrypt file");
    assert_eq!(opened, plaintext);
}

#[test]
fn encrypt_decrypt_roundtrip_with_aes_256_gcm() {
    let plaintext = b"sealvault aes mode payload";
    let sealed = encrypt_with_algorithm(plaintext, "test-password", AeadAlgorithm::Aes256Gcm).expect("encrypt file with aes");
    assert_eq!(sealed[9], 2);
    let opened = decrypt(&sealed, "test-password").expect("decrypt file");
    assert_eq!(opened, plaintext);
}

#[test]
fn decrypt_with_wrong_password_fails() {
    let sealed = encrypt(b"sealvault auth fail", "correct-password").expect("encrypt file");
    let result = decrypt(&sealed, "wrong-password");
    assert!(result.is_err(), "expected decrypt to fail");
    assert_eq!(result, Err(SealVaultError::InvalidPasswordOrFile));
}

#[test]
fn decrypt_rejects_invalid_header_magic() {
    let result = decrypt(b"not a sealvault file", "password");
    assert!(result.is_err(), "expected invalid header");
    assert_eq!(result, Err(SealVaultError::CorruptedHeader));
}

#[test]
fn decrypt_rejects_unknown_version_before_any_chunk() {
    let mut bytes = b"SVLTv1\0\0".to_vec();
    bytes.push(9);
    bytes.extend_from_slice(&[0u8; 100]);
    assert_eq!(decrypt(&bytes, "password"), Err(SealVaultError::UnsupportedVersion));
}

#[test]
fn abc_scenario_layout_and_round_trip() {
    let salt = [1u8; 16];
    let nonce = [2u8; 24];
    let sealed = encrypt_with_parameters(b"abc", "pw", AeadAlgorithm::XChaCha20Poly1305, salt, nonce, 65536).expect("encrypt");
    assert_eq!(HEADER_SIZE, 54);
    assert_eq!(sealed.len(), 54 + 4 + 3 + 16);
    let (h, n) = Header::read(&sealed).expect("header");
    assert_eq!(n, 54);
    assert_eq!(h.algorithm, AeadAlgorithm::XChaCha20Poly1305);
    assert_eq!(h.chunk_size, 65536);
    assert_eq!(&sealed[54..58], &[0, 0, 0, 3]);
    assert_eq!(decrypt(&sealed, "pw"), Ok(b"abc".to_vec()));
}

#[test]
fn abc_scenario_other_password_fails() {
    let sealed = encrypt_with_parameters(b"abc", "pw", AeadAlgorithm::XChaCha20Poly1305, [1u8; 16], [2u8; 24], 65536).expect("encrypt");
    assert_eq!(decrypt(&sealed, "pw2"), Err(SealVaultError::InvalidPasswordOrFile));
}

#[test]
fn empty_plaintext_is_header_only() {
    let sealed = encrypt_with_parameters(b"", "pw", AeadAlgorithm::Aes256Gcm, [5u8; 16], [6u8; 24], 64).expect("encrypt");
    assert_eq!(sealed.len(), 54);
    assert_eq!(decrypt(&sealed, "pw"), Ok(Vec::new()));
}

#[test]
fn tampered_header_salt_fails() {
    let mut sealed = encrypt_with_parameters(b"multi chunk text", "pw", AeadAlgorithm::Aes256Gcm, [5u8; 16], [6u8; 24], 4).expect("encrypt");
    assert_eq!(sealed.len(), 54 + 4 * (4 + 4 + 16));
    sealed[12] ^= 0x10;
    assert!(decrypt(&sealed, "pw").is_err());
}

#[test]
fn derive_key_is_deterministic_per_salt() {
    let a = derive_key("password", &[9u8; 16]).expect("key");
    let b = derive_key("password", &[9u8; 16]).expect("key");
    assert_eq!(a.bytes(), b.bytes());
    assert_ne!(a.bytes(), &[0u8; 32]);
    let mut c = derive_key("password", &[9u8; 16]).expect("key");
    c.wipe();
    assert_eq!(c.bytes(), &[0u8; 32]);
}

#[test]
fn salts_are_fresh() {
    let a = generate_salt().expect("salt");
    let b = generate_salt().expect("salt");
    assert_eq!(a.len(), 16);
    assert_ne!(a, b);
}
