use sealvault::aead::{decrypt, encrypt, NONCE_LEN};
use sealvault::SealVaultError;

#[test]
fn aead_round_trip() {
    let key = [3u8; 32];
    let sealed = encrypt(&key, b"payload").expect("encrypt");
    assert_eq!(NONCE_LEN, 12);
    assert_eq!(sealed.ciphertext.len(), 7 + 16);
    assert_ne!(&sealed.ciphertext[..7], b"payload");
    assert_eq!(decrypt(&key, &sealed.nonce, &sealed.ciphertext), Ok(b"payload".to_vec()));
}

#[test]
fn aead_rejects_wrong_key_and_tampering() {
    let key = [3u8; 32];
    let sealed = encrypt(&key, b"payload").expect("encrypt");
    assert_eq!(decrypt(&[4u8; 32], &sealed.nonce, &sealed.ciphertext), Err(SealVaultError::InvalidPasswordOrFile));
    let mut bad = sealed.ciphertext.clone();
    bad[0] ^= 0x80;
    assert_eq!(decrypt(&key, &sealed.nonce, &bad), Err(SealVaultError::InvalidPasswordOrFile));
}
