use vstd::prelude::*;

use aes_gcm::aead::{Aead, KeyInit, Payload};
use aes_gcm::{Aes256Gcm, Key, Nonce};

use crate::bytes::{encode_u64_be, u64_be};
use crate::error::SealVaultError;

verus! {

/// AES-256-GCM uses the whole 24-byte base nonce.
pub const NONCE_SIZE: usize = 24;

/// What AES-256-GCM produces for a key, nonce, message and associated
/// data: the ciphertext followed by the 16-byte tag.
pub uninterp spec fn aes_256_gcm_seal(key: Seq<u8>, nonce: Seq<u8>, msg: Seq<u8>, aad: Seq<u8>) -> Seq<u8>;

/// What AES-256-GCM decryption gives for a ciphertext-and-tag: the
/// message, or nothing when the tag does not authenticate.
pub uninterp spec fn aes_256_gcm_open(key: Seq<u8>, nonce: Seq<u8>, ct: Seq<u8>, aad: Seq<u8>) -> Option<Seq<u8>>;

/// AES-256-GCM accepts messages and associated data of at most 2^36 bytes.
pub open spec fn gcm_len_ok(len: nat) -> bool {
    len <= 0x10_0000_0000
}

/// The nonce of a chunk: the first 12 bytes of the base nonce with the
/// big-endian chunk index XORed into bytes 4 to 11.
pub open spec fn gcm_nonce(base: Seq<u8>, index: u64) -> Seq<u8> {
    Seq::new(12, |i: int| if i < 4 { base[i] } else { base[i] ^ u64_be(index)[i - 4] })
}

/// Relies on aes-gcm's `Aes256Gcm::encrypt` (aead's `Aead`):
/// the result is the ciphertext followed by a 16-byte tag; it fails only when
/// the message or the associated data is longer than 2^36 bytes.
#[verifier::external_body]
pub(crate) fn seal(key: &[u8; 32], nonce: &[u8; 12], msg: &[u8], aad: &[u8]) -> (r: Result<Vec<u8>, ()>)
    ensures
        r is Ok <==> (gcm_len_ok(msg@.len()) && gcm_len_ok(aad@.len())),
        r is Ok ==> r->Ok_0@ == aes_256_gcm_seal(key@, nonce@, msg@, aad@),
        r is Ok ==> r->Ok_0@.len() == msg@.len() + 16,
{
    let cipher = Aes256Gcm::new(Key::<Aes256Gcm>::from_slice(key));
    cipher.encrypt(Nonce::from_slice(nonce), Payload { msg, aad }).map_err(|_| ())
}

/// Relies on aes-gcm's `Aes256Gcm::decrypt` (aead's `Aead`):
/// it returns the message exactly when the trailing tag authenticates, and
/// what `encrypt` produced for a message decrypts, under the same key, nonce
/// and associated data, to that message.
#[verifier::external_body]
pub(crate) fn open(key: &[u8; 32], nonce: &[u8; 12], ct: &[u8], aad: &[u8]) -> (r: Result<Vec<u8>, ()>)
    ensures
        r is Ok <==> aes_256_gcm_open(key@, nonce@, ct@, aad@) is Some,
        r is Ok ==> aes_256_gcm_open(key@, nonce@, ct@, aad@) == Some(r->Ok_0@),
        forall|m: Seq<u8>|
            gcm_len_ok(m.len()) && gcm_len_ok(aad@.len()) && ct@ == #[trigger] aes_256_gcm_seal(key@, nonce@, m, aad@)
                ==> (r is Ok && r->Ok_0@ == m),
{
    let cipher = Aes256Gcm::new(Key::<Aes256Gcm>::from_slice(key));
    cipher.decrypt(Nonce::from_slice(nonce), Payload { msg: ct, aad }).map_err(|_| ())
}

/// Derives the nonce of chunk `index` from the base nonce.
pub fn derive_nonce(base: &[u8; 24], index: u64) -> (r: [u8; 12])
    ensures
        r@ == gcm_nonce(base@, index),
{
    let mut nonce = [0u8; 12];
    let mut j: usize = 0;
    while j < 12
        invariant
            j <= 12,
            nonce@.len() == 12,
            forall|k: int| 0 <= k < j ==> #[trigger] nonce@[k] == base@[k],
        decreases 12 - j,
    {
        nonce[j] = base[j];
        j = j + 1;
    }
    let idx = encode_u64_be(index);
    let mut i: usize = 0;
    while i < 8
        invariant
            i <= 8,
            idx@ == u64_be(index),
            nonce@.len() == 12,
            forall|k: int| 0 <= k < 4 + i ==> #[trigger] nonce@[k] == gcm_nonce(base@, index)[k],
            forall|k: int| 4 + i <= k < 12 ==> #[trigger] nonce@[k] == base@[k],
        decreases 8 - i,
    {
        let b = nonce[4 + i] ^ idx[i];
        nonce[4 + i] = b;
        i = i + 1;
    }
    assert(nonce@ =~= gcm_nonce(base@, index));
    nonce
}

/// Encrypts one chunk under the nonce derived for `chunk_index`.
pub fn encrypt_chunk(key: &[u8; 32], base_nonce: &[u8; 24], chunk_index: u64, plaintext: &[u8], aad: &[u8]) -> (r: Result<Vec<u8>, SealVaultError>)
    ensures
        r is Ok <==> gcm_len_ok(plaintext@.len()) && gcm_len_ok(aad@.len()),
        r is Ok ==> r->Ok_0@ == aes_256_gcm_seal(key@, gcm_nonce(base_nonce@, chunk_index), plaintext@, aad@),
        r is Ok ==> r->Ok_0@.len() == plaintext@.len() + 16,
        r is Err ==> r->Err_0 == SealVaultError::Internal,
{
    let nonce = derive_nonce(base_nonce, chunk_index);
    match seal(key, &nonce, plaintext, aad) {
        Ok(c) => Ok(c),
        Err(_) => Err(SealVaultError::Internal),
    }
}

/// Decrypts and authenticates one chunk under the nonce derived for
/// `chunk_index`.
pub fn decrypt_chunk(key: &[u8; 32], base_nonce: &[u8; 24], chunk_index: u64, ciphertext: &[u8], aad: &[u8]) -> (r: Result<Vec<u8>, SealVaultError>)
    ensures
        ({
            let n = gcm_nonce(base_nonce@, chunk_index);
            &&& r is Ok <==> aes_256_gcm_open(key@, n, ciphertext@, aad@) is Some
            &&& r is Ok ==> aes_256_gcm_open(key@, n, ciphertext@, aad@) == Some(r->Ok_0@)
            &&& r is Err ==> r->Err_0 == SealVaultError::InvalidPasswordOrFile
            &&& forall|m: Seq<u8>|
                gcm_len_ok(m.len()) && gcm_len_ok(aad@.len()) && ciphertext@ == #[trigger] aes_256_gcm_seal(key@, n, m, aad@)
                    ==> (r is Ok && r->Ok_0@ == m)
        }),
{
    let nonce = derive_nonce(base_nonce, chunk_index);
    match open(key, &nonce, ciphertext, aad) {
        Ok(p) => Ok(p),
        Err(_) => Err(SealVaultError::InvalidPasswordOrFile),
    }
}

/// Within one file no two chunks share a nonce: distinct indices give
/// distinct nonces for the same base nonce.
pub proof fn lemma_gcm_nonce_unique(base: Seq<u8>, i: u64, j: u64)
    requires
        base.len() == 24,
        i != j,
    ensures
        gcm_nonce(base, i) != gcm_nonce(base, j),
{
    if gcm_nonce(base, i) == gcm_nonce(base, j) {
        assert forall|k: int| 0 <= k < 8 implies u64_be(i)[k] == u64_be(j)[k] by {
            let b = base[4 + k];
            let x = u64_be(i)[k];
            let y = u64_be(j)[k];
            assert(gcm_nonce(base, i)[4 + k] == gcm_nonce(base, j)[4 + k]);
            assert(b ^ x == b ^ y ==> x == y) by (bit_vector);
        }
        assert(u64_be(i) =~= u64_be(j));
        crate::bytes::lemma_u64_be_injective(i, j);
    }
}

} // verus!
