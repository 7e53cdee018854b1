use vstd::prelude::*;
use vstd::string::StringSliceAdditionalSpecFns;

use crate::algorithm::{AeadAlgorithm, DEFAULT_AEAD_ALGORITHM};
use crate::error::SealVaultError;
use crate::header::{append_bytes, header_bytes, lemma_header_round_trip, parse_header, Header, HeaderModel, VERSION};
use crate::kdf::{derive_key, derived_key, generate_salt, random_array};
use crate::stream::{chunks_of, lemma_chunks_of, open_frames, seals_sized, sealed_frames, StreamDecryptor, StreamEncryptor, DEFAULT_CHUNK_SIZE};

verus! {

/// The header this library writes for the given parameters.
pub open spec fn current_header(alg: AeadAlgorithm, salt: Seq<u8>, base: Seq<u8>, chunk_size: u32) -> HeaderModel {
    HeaderModel { version: VERSION, algorithm: alg, salt, base_nonce: base, chunk_size }
}

/// `c` is the container of plaintext `pt` under `password`, sealed with the
/// given algorithm, salt, base nonce and chunk size.
pub open spec fn container_of(c: Seq<u8>, password: Seq<u8>, pt: Seq<u8>, alg: AeadAlgorithm, salt: Seq<u8>, base: Seq<u8>, chunk_size: u32) -> bool {
    let key = derived_key(password, salt);
    &&& password.len() <= u32::MAX
    &&& salt.len() == 16
    &&& base.len() == 24
    &&& chunk_size > 0
    &&& c == header_bytes(current_header(alg, salt, base, chunk_size)) + sealed_frames(alg, key, base, 0, chunks_of(pt, chunk_size as nat))
    &&& seals_sized(alg, key, base, 0, chunks_of(pt, chunk_size as nat))
}

/// `c` is a container of `pt` under `password`, for some parameters.
pub open spec fn sealed_container(c: Seq<u8>, password: Seq<u8>, pt: Seq<u8>) -> bool {
    exists|alg: AeadAlgorithm, salt: Seq<u8>, base: Seq<u8>, chunk_size: u32| #[trigger] container_of(c, password, pt, alg, salt, base, chunk_size)
}

/// Seals `plaintext` under `password` with the given salt, base nonce, chunk
/// size and algorithm: the header, then one frame per chunk.
pub fn encrypt_with_parameters(
    plaintext: &[u8],
    password: &str,
    algorithm: AeadAlgorithm,
    salt: [u8; 16],
    base_nonce: [u8; 24],
    chunk_size: u32,
) -> (r: Result<Vec<u8>, SealVaultError>)
    requires
        chunk_size > 0,
    ensures
        r is Ok <==> password.spec_bytes().len() <= u32::MAX,
        r is Ok ==> container_of(r->Ok_0@, password.spec_bytes(), plaintext@, algorithm, salt@, base_nonce@, chunk_size),
        r is Ok ==> sealed_container(r->Ok_0@, password.spec_bytes(), plaintext@),
        r is Err ==> r->Err_0 == SealVaultError::Internal,
{
    let mut key = match derive_key(password, &salt) {
        Ok(k) => k,
        Err(e) => {
            return Err(e);
        },
    };
    let header = Header::new(salt, base_nonce, chunk_size, algorithm);
    let mut out: Vec<u8> = Vec::new();
    header.write(&mut out);
    let mut encryptor = StreamEncryptor::new(key.bytes(), base_nonce, chunk_size as usize, algorithm);
    key.wipe();
    let len = plaintext.len();
    assert(len as int <= u64::MAX);
    let frames = encryptor.encrypt(plaintext);
    encryptor.finish();
    append_bytes(&mut out, &frames);
    Ok(out)
}

/// Seals `plaintext` under `password` with `algorithm`, a fresh random salt
/// and base nonce, and chunks of the default size.
pub fn encrypt_with_algorithm(plaintext: &[u8], password: &str, algorithm: AeadAlgorithm) -> (r: Result<Vec<u8>, SealVaultError>)
    ensures
        r is Ok ==> exists|salt: Seq<u8>, base: Seq<u8>|
            #[trigger] container_of(r->Ok_0@, password.spec_bytes(), plaintext@, algorithm, salt, base, DEFAULT_CHUNK_SIZE as u32),
        r is Ok ==> sealed_container(r->Ok_0@, password.spec_bytes(), plaintext@),
        r is Err ==> r->Err_0 == SealVaultError::Internal,
{
    let salt = match generate_salt() {
        Ok(s) => s,
        Err(e) => {
            return Err(e);
        },
    };
    let base_nonce: [u8; 24] = match random_array() {
        Ok(n) => n,
        Err(e) => {
            return Err(e);
        },
    };
    let r = encrypt_with_parameters(plaintext, password, algorithm, salt, base_nonce, DEFAULT_CHUNK_SIZE as u32);
    proof {
        if r is Ok {
            assert(container_of(r->Ok_0@, password.spec_bytes(), plaintext@, algorithm, salt@, base_nonce@, DEFAULT_CHUNK_SIZE as u32));
        }
    }
    r
}

/// Seals `plaintext` under `password` with the default algorithm.
pub fn encrypt(plaintext: &[u8], password: &str) -> (r: Result<Vec<u8>, SealVaultError>)
    ensures
        r is Ok ==> exists|salt: Seq<u8>, base: Seq<u8>|
            #[trigger] container_of(r->Ok_0@, password.spec_bytes(), plaintext@, DEFAULT_AEAD_ALGORITHM, salt, base, DEFAULT_CHUNK_SIZE as u32),
        r is Ok ==> sealed_container(r->Ok_0@, password.spec_bytes(), plaintext@),
        r is Err ==> r->Err_0 == SealVaultError::Internal,
{
    encrypt_with_algorithm(plaintext, password, DEFAULT_AEAD_ALGORITHM)
}

/// Opens a container with `password`. The header is read and checked before
/// any chunk; the algorithm comes from the header. A container that sealing
/// some plaintext under this password produced opens to that plaintext.
pub fn decrypt(container: &[u8], password: &str) -> (r: Result<Vec<u8>, SealVaultError>)
    ensures
        match parse_header(container@) {
            Err(e) => r == Err::<Vec<u8>, SealVaultError>(e),
            Ok((h, n)) => if password.spec_bytes().len() > u32::MAX {
                r == Err::<Vec<u8>, SealVaultError>(SealVaultError::Internal)
            } else {
                match open_frames(h.algorithm, derived_key(password.spec_bytes(), h.salt), h.base_nonce, 0,
                    container@.subrange(n as int, container@.len() as int)) {
                    Ok(p) => r is Ok && r->Ok_0@ == p,
                    Err(e) => r == Err::<Vec<u8>, SealVaultError>(e),
                }
            },
        },
        forall|pt: Seq<u8>| #[trigger] sealed_container(container@, password.spec_bytes(), pt) ==> (r is Ok && r->Ok_0@ == pt),
{
    let (header, n) = match Header::read(container) {
        Ok(hn) => hn,
        Err(e) => {
            proof {
                assert forall|pt: Seq<u8>| !#[trigger] sealed_container(container@, password.spec_bytes(), pt) by {
                    if sealed_container(container@, password.spec_bytes(), pt) {
                        let (alg, salt, base, cs) = choose|alg: AeadAlgorithm, salt: Seq<u8>, base: Seq<u8>, cs: u32|
                            container_of(container@, password.spec_bytes(), pt, alg, salt, base, cs);
                        let key = derived_key(password.spec_bytes(), salt);
                        lemma_header_round_trip(current_header(alg, salt, base, cs), sealed_frames(alg, key, base, 0, chunks_of(pt, cs as nat)));
                    }
                }
            }
            return Err(e);
        },
    };
    let mut key = match derive_key(password, &header.salt) {
        Ok(k) => k,
        Err(e) => {
            return Err(e);
        },
    };
    let mut decryptor = StreamDecryptor::new(key.bytes(), header.base_nonce, header.algorithm);
    key.wipe();
    let body = crate::bytes::copy_range(container, n, container.len());
    let r = decryptor.decrypt(body.as_slice());
    if !decryptor.is_failed() {
        decryptor.finish();
    }
    proof {
        assert forall|pt: Seq<u8>| #[trigger] sealed_container(container@, password.spec_bytes(), pt) implies (r is Ok && r->Ok_0@ == pt) by {
            let (alg, salt, base, cs) = choose|alg: AeadAlgorithm, salt: Seq<u8>, base: Seq<u8>, cs: u32|
                container_of(container@, password.spec_bytes(), pt, alg, salt, base, cs);
            let key = derived_key(password.spec_bytes(), salt);
            let frames = sealed_frames(alg, key, base, 0, chunks_of(pt, cs as nat));
            let h = current_header(alg, salt, base, cs);
            lemma_header_round_trip(h, frames);
            assert(container@ == header_bytes(h) + frames);
            assert(body@ =~= frames);
            lemma_chunks_of(pt, cs as nat);
        }
    }
    r
}

} // verus!
