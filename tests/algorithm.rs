use sealvault::algorithm::{parse_algorithm, AES_256_GCM_ID, DEFAULT_AEAD_ALGORITHM, XCHACHA20_POLY1305_ID};
use sealvault::{AeadAlgorithm, SealVaultError};

#[test]
fn algorithm_ids_are_stable() {
    assert_eq!(AeadAlgorithm::XChaCha20Poly1305.to_u8(), 1);
    assert_eq!(AeadAlgorithm::Aes256Gcm.to_u8(), 2);
    assert_eq!(XCHACHA20_POLY1305_ID, 1);
    assert_eq!(AES_256_GCM_ID, 2);
}

#[test]
fn algorithm_from_id_round_trips_and_rejects_unknown() {
    assert_eq!(AeadAlgorithm::from_u8(1), Some(AeadAlgorithm::XChaCha20Poly1305));
    assert_eq!(AeadAlgorithm::from_u8(2), Some(AeadAlgorithm::Aes256Gcm));
    for id in [0u8, 3, 4, 0x7f, 0xff] {
        assert_eq!(AeadAlgorithm::from_u8(id), None);
    }
    for a in [AeadAlgorithm::XChaCha20Poly1305, AeadAlgorithm::Aes256Gcm] {
        assert_eq!(AeadAlgorithm::from_u8(a.to_u8()), Some(a));
    }
}

#[test]
fn default_algorithm_is_xchacha() {
    assert_eq!(DEFAULT_AEAD_ALGORITHM, AeadAlgorithm::XChaCha20Poly1305);
}

#[test]
fn parse_algorithm_names() {
    assert_eq!(parse_algorithm(None), Ok(AeadAlgorithm::XChaCha20Poly1305));
    assert_eq!(parse_algorithm(Some("xchacha20")), Ok(AeadAlgorithm::XChaCha20Poly1305));
    assert_eq!(parse_algorithm(Some("xchacha20poly1305")), Ok(AeadAlgorithm::XChaCha20Poly1305));
    assert_eq!(parse_algorithm(Some("aes256gcm")), Ok(AeadAlgorithm::Aes256Gcm));
    assert_eq!(parse_algorithm(Some("aes-256-gcm")), Ok(AeadAlgorithm::Aes256Gcm));
    assert_eq!(parse_algorithm(Some("AES256GCM")), Err(SealVaultError::InvalidInput));
    assert_eq!(parse_algorithm(Some("")), Err(SealVaultError::InvalidInput));
    assert_eq!(parse_algorithm(Some("rot13")), Err(SealVaultError::InvalidInput));
}
