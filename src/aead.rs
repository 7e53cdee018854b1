use vstd::prelude::*;

use crate::aes_256_gcm::{aes_256_gcm_open, aes_256_gcm_seal, gcm_len_ok, open, seal};
use crate::error::SealVaultError;
use crate::kdf::random_array;

verus! {

/// Length of an AES-GCM nonce (96 bits).
pub const NONCE_LEN: usize = 12;

/// A sealed message with the nonce it was sealed under.
pub struct EncryptedData {
    pub nonce: [u8; 12],
    pub ciphertext: Vec<u8>,
}

/// Seals `plaintext` with AES-256-GCM under a fresh random nonce and no
/// associated data.
pub fn encrypt(key_bytes: &[u8; 32], plaintext: &[u8]) -> (r: Result<EncryptedData, SealVaultError>)
    ensures
        r is Ok ==> r->Ok_0.ciphertext@ == aes_256_gcm_seal(key_bytes@, r->Ok_0.nonce@, plaintext@, Seq::empty()),
        r is Ok ==> r->Ok_0.ciphertext@.len() == plaintext@.len() + 16,
        !gcm_len_ok(plaintext@.len()) ==> r is Err,
        r is Err ==> r->Err_0 == SealVaultError::Internal,
{
    let nonce: [u8; 12] = match random_array() {
        Ok(n) => n,
        Err(e) => {
            return Err(e);
        },
    };
    let aad: [u8; 0] = [];
    assert(aad@ =~= Seq::<u8>::empty());
    match seal(key_bytes, &nonce, plaintext, &aad) {
        Ok(ciphertext) => Ok(EncryptedData { nonce, ciphertext }),
        Err(_) => Err(SealVaultError::Internal),
    }
}

/// Opens an AES-256-GCM ciphertext-and-tag sealed under `nonce` with no
/// associated data; a wrong key or altered data fails alike.
pub fn decrypt(key_bytes: &[u8; 32], nonce: &[u8; 12], ciphertext: &[u8]) -> (r: Result<Vec<u8>, SealVaultError>)
    ensures
        match aes_256_gcm_open(key_bytes@, nonce@, ciphertext@, Seq::empty()) {
            Some(p) => r is Ok && r->Ok_0@ == p,
            None => r == Err::<Vec<u8>, SealVaultError>(SealVaultError::InvalidPasswordOrFile),
        },
        forall|m: Seq<u8>|
            gcm_len_ok(m.len()) && ciphertext@ == #[trigger] aes_256_gcm_seal(key_bytes@, nonce@, m, Seq::empty())
                ==> (r is Ok && r->Ok_0@ == m),
{
    let aad: [u8; 0] = [];
    assert(aad@ =~= Seq::<u8>::empty());
    match open(key_bytes, nonce, ciphertext, &aad) {
        Ok(p) => Ok(p),
        Err(_) => Err(SealVaultError::InvalidPasswordOrFile),
    }
}

} // verus!
