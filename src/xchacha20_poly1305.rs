use vstd::prelude::*;

use chacha20poly1305::aead::{Aead, KeyInit, Payload};
use chacha20poly1305::{Key, XChaCha20Poly1305, XNonce};

use crate::bytes::{encode_u64_be, u64_be};
use crate::error::SealVaultError;

verus! {

/// XChaCha20-Poly1305 uses the whole 24-byte base nonce.
pub const NONCE_SIZE: usize = 24;

/// What XChaCha20-Poly1305 produces for a key, nonce, message and associated
/// data: the ciphertext followed by the 16-byte tag.
pub uninterp spec fn xchacha20_poly1305_seal(key: Seq<u8>, nonce: Seq<u8>, msg: Seq<u8>, aad: Seq<u8>) -> Seq<u8>;

/// What XChaCha20-Poly1305 decryption gives for a ciphertext-and-tag: the
/// message, or nothing when the tag does not authenticate.
pub uninterp spec fn xchacha20_poly1305_open(key: Seq<u8>, nonce: Seq<u8>, ct: Seq<u8>, aad: Seq<u8>) -> Option<Seq<u8>>;

/// The largest message XChaCha20-Poly1305 accepts has fewer than this many
/// 64-byte blocks.
pub open spec fn xchacha_msg_ok(len: nat) -> bool {
    len / 64 < 0xffff_ffff
}

/// The nonce of a chunk: the base nonce with the big-endian chunk index XORed
/// into bytes 16 to 23.
pub open spec fn xchacha_nonce(base: Seq<u8>, index: u64) -> Seq<u8> {
    Seq::new(24, |i: int| if i < 16 { base[i] } else { base[i] ^ u64_be(index)[i - 16] })
}

/// Relies on chacha20poly1305's `XChaCha20Poly1305::encrypt` (aead's `Aead`):
/// the result is the ciphertext followed by a 16-byte tag; it fails only for a
/// message of 2^32 - 1 blocks of 64 bytes or more.
#[verifier::external_body]
fn seal(key: &[u8; 32], nonce: &[u8; 24], msg: &[u8], aad: &[u8]) -> (r: Result<Vec<u8>, ()>)
    ensures
        r is Ok <==> xchacha_msg_ok(msg@.len()),
        r is Ok ==> r->Ok_0@ == xchacha20_poly1305_seal(key@, nonce@, msg@, aad@),
        r is Ok ==> r->Ok_0@.len() == msg@.len() + 16,
{
    let cipher = XChaCha20Poly1305::new(Key::from_slice(key));
    cipher.encrypt(XNonce::from_slice(nonce), Payload { msg, aad }).map_err(|_| ())
}

/// Relies on chacha20poly1305's `XChaCha20Poly1305::decrypt` (aead's `Aead`):
/// it returns the message exactly when the trailing tag authenticates, and
/// what `encrypt` produced for a message decrypts, under the same key, nonce
/// and associated data, to that message.
#[verifier::external_body]
fn open(key: &[u8; 32], nonce: &[u8; 24], ct: &[u8], aad: &[u8]) -> (r: Result<Vec<u8>, ()>)
    ensures
        r is Ok <==> xchacha20_poly1305_open(key@, nonce@, ct@, aad@) is Some,
        r is Ok ==> xchacha20_poly1305_open(key@, nonce@, ct@, aad@) == Some(r->Ok_0@),
        forall|m: Seq<u8>|
            xchacha_msg_ok(m.len()) && ct@ == #[trigger] xchacha20_poly1305_seal(key@, nonce@, m, aad@)
                ==> (r is Ok && r->Ok_0@ == m),
{
    let cipher = XChaCha20Poly1305::new(Key::from_slice(key));
    cipher.decrypt(XNonce::from_slice(nonce), Payload { msg: ct, aad }).map_err(|_| ())
}

/// Derives the nonce of chunk `index` from the base nonce.
pub fn derive_nonce(base: &[u8; 24], index: u64) -> (r: [u8; 24])
    ensures
        r@ == xchacha_nonce(base@, index),
{
    let mut nonce = *base;
    let idx = encode_u64_be(index);
    let mut i: usize = 0;
    while i < 8
        invariant
            i <= 8,
            idx@ == u64_be(index),
            nonce@.len() == 24,
            forall|k: int| 0 <= k < 16 + i ==> #[trigger] nonce@[k] == xchacha_nonce(base@, index)[k],
            forall|k: int| 16 + i <= k < 24 ==> #[trigger] nonce@[k] == base@[k],
        decreases 8 - i,
    {
        let b = nonce[16 + i] ^ idx[i];
        nonce[16 + i] = b;
        i = i + 1;
    }
    assert(nonce@ =~= xchacha_nonce(base@, index));
    nonce
}

/// Encrypts one chunk under the nonce derived for `chunk_index`.
pub fn encrypt_chunk(key: &[u8; 32], base_nonce: &[u8; 24], chunk_index: u64, plaintext: &[u8], aad: &[u8]) -> (r: Result<Vec<u8>, SealVaultError>)
    ensures
        r is Ok <==> xchacha_msg_ok(plaintext@.len()),
        r is Ok ==> r->Ok_0@ == xchacha20_poly1305_seal(key@, xchacha_nonce(base_nonce@, chunk_index), plaintext@, aad@),
        r is Ok ==> r->Ok_0@.len() == plaintext@.len() + 16,
        r is Err ==> r->Err_0 == SealVaultError::Internal,
{
    let nonce = derive_nonce(base_nonce, chunk_index);
    match seal(key, &nonce, plaintext, aad) {
        Ok(c) => Ok(c),
        Err(_) => Err(SealVaultError::Internal),
    }
}

/// Decrypts and authenticates one chunk under the nonce derived for
/// `chunk_index`.
pub fn decrypt_chunk(key: &[u8; 32], base_nonce: &[u8; 24], chunk_index: u64, ciphertext: &[u8], aad: &[u8]) -> (r: Result<Vec<u8>, SealVaultError>)
    ensures
        ({
            let n = xchacha_nonce(base_nonce@, chunk_index);
            &&& r is Ok <==> xchacha20_poly1305_open(key@, n, ciphertext@, aad@) is Some
            &&& r is Ok ==> xchacha20_poly1305_open(key@, n, ciphertext@, aad@) == Some(r->Ok_0@)
            &&& r is Err ==> r->Err_0 == SealVaultError::InvalidPasswordOrFile
            &&& forall|m: Seq<u8>|
                xchacha_msg_ok(m.len()) && ciphertext@ == #[trigger] xchacha20_poly1305_seal(key@, n, m, aad@)
                    ==> (r is Ok && r->Ok_0@ == m)
        }),
{
    let nonce = derive_nonce(base_nonce, chunk_index);
    match open(key, &nonce, ciphertext, aad) {
        Ok(p) => Ok(p),
        Err(_) => Err(SealVaultError::InvalidPasswordOrFile),
    }
}

/// Within one file no two chunks share a nonce: distinct indices give
/// distinct nonces for the same base nonce.
pub proof fn lemma_xchacha_nonce_unique(base: Seq<u8>, i: u64, j: u64)
    requires
        base.len() == 24,
        i != j,
    ensures
        xchacha_nonce(base, i) != xchacha_nonce(base, j),
{
    if xchacha_nonce(base, i) == xchacha_nonce(base, j) {
        assert forall|k: int| 0 <= k < 8 implies u64_be(i)[k] == u64_be(j)[k] by {
            let b = base[16 + k];
            let x = u64_be(i)[k];
            let y = u64_be(j)[k];
            assert(xchacha_nonce(base, i)[16 + k] == xchacha_nonce(base, j)[16 + k]);
            assert(b ^ x == b ^ y ==> x == y) by (bit_vector);
        }
        assert(u64_be(i) =~= u64_be(j));
        crate::bytes::lemma_u64_be_injective(i, j);
    }
}

} // verus!
