use sealvault::aes_256_gcm;
use sealvault::stream::{frame_body_len, StreamDecryptor, StreamEncryptor, DEFAULT_CHUNK_SIZE};
use sealvault::xchacha20_poly1305;
use sealvault::{AeadAlgorithm, SealVaultError};

const KEY: [u8; 32] = [7u8; 32];
const ALGS: [AeadAlgorithm; 2] = [AeadAlgorithm::XChaCha20Poly1305, AeadAlgorithm::Aes256Gcm];

fn base() -> [u8; 24] {
    let mut b = [0u8; 24];
    for (i, x) in b.iter_mut().enumerate() {
        *x = (i * 11) as u8;
    }
    b
}

fn seal(alg: AeadAlgorithm, pt: &[u8], chunk: usize) -> Vec<u8> {
    let mut e = StreamEncryptor::new(&KEY, base(), chunk, alg);
    let out = e.encrypt(pt);
    e.finish();
    out
}

fn open(alg: AeadAlgorithm, frames: &[u8]) -> Result<Vec<u8>, SealVaultError> {
    let mut d = StreamDecryptor::new(&KEY, base(), alg);
    d.decrypt(frames)
}

#[test]
fn xchacha_nonce_xors_index_into_tail() {
    let b = [0xffu8; 24];
    let n = xchacha20_poly1305::derive_nonce(&b, 0x0102030405060708);
    assert_eq!(&n[..16], &[0xff; 16]);
    assert_eq!(&n[16..], &[0xfe, 0xfd, 0xfc, 0xfb, 0xfa, 0xf9, 0xf8, 0xf7]);
    assert_eq!(xchacha20_poly1305::derive_nonce(&b, 0), b);
}

#[test]
fn gcm_nonce_takes_first_twelve_bytes() {
    let b = base();
    let n = aes_256_gcm::derive_nonce(&b, 1);
    assert_eq!(n.len(), 12);
    assert_eq!(&n[..11], &b[..11]);
    assert_eq!(n[11], b[11] ^ 1);
    let m = aes_256_gcm::derive_nonce(&b, 0x0100_0000_0000_0000);
    assert_eq!(m[4], b[4] ^ 1);
    assert_eq!(&m[5..], &b[5..12]);
}

#[test]
fn nonces_differ_per_chunk() {
    let b = base();
    let mut seen = Vec::new();
    for i in 0..64u64 {
        let n = xchacha20_poly1305::derive_nonce(&b, i);
        assert!(!seen.contains(&n));
        seen.push(n);
    }
}

#[test]
fn empty_plaintext_gives_no_frames() {
    for alg in ALGS {
        assert!(seal(alg, b"", 16).is_empty());
        assert_eq!(open(alg, b""), Ok(Vec::new()));
    }
}

#[test]
fn frames_have_length_body_and_tag() {
    for alg in ALGS {
        let pt: Vec<u8> = (0..40u8).collect();
        let out = seal(alg, &pt, 16);
        assert_eq!(out.len(), 3 * 4 + 40 + 3 * 16);
        assert_eq!(&out[0..4], &[0, 0, 0, 16]);
        assert_eq!(&out[36..40], &[0, 0, 0, 16]);
        assert_eq!(&out[72..76], &[0, 0, 0, 8]);
        assert_ne!(&out[4..20], &pt[..16]);
    }
}

#[test]
fn stream_round_trip_many_sizes() {
    for alg in ALGS {
        for len in [1usize, 15, 16, 17, 64, 100] {
            let pt: Vec<u8> = (0..len).map(|i| (i * 7) as u8).collect();
            let out = seal(alg, &pt, 16);
            assert_eq!(open(alg, &out), Ok(pt));
        }
    }
}

#[test]
fn encrypting_in_blocks_matches_one_call() {
    let pt: Vec<u8> = (0..50u8).collect();
    let whole = seal(AeadAlgorithm::XChaCha20Poly1305, &pt, 10);
    let mut e = StreamEncryptor::new(&KEY, base(), 10, AeadAlgorithm::XChaCha20Poly1305);
    let mut pieces = Vec::new();
    for block in pt.chunks(10) {
        pieces.extend(e.encrypt(block));
    }
    assert_eq!(e.chunk_index(), 5);
    assert_eq!(pieces, whole);
}

#[test]
fn decrypting_frame_by_frame_matches_one_call() {
    let pt: Vec<u8> = (0..30u8).collect();
    let out = seal(AeadAlgorithm::Aes256Gcm, &pt, 10);
    let mut d = StreamDecryptor::new(&KEY, base(), AeadAlgorithm::Aes256Gcm);
    let mut got = Vec::new();
    for frame in out.chunks(4 + 10 + 16) {
        got.extend(d.decrypt(frame).expect("frame"));
    }
    assert_eq!(d.chunk_index(), 3);
    assert_eq!(got, pt);
}

#[test]
fn flipping_any_byte_fails() {
    for alg in ALGS {
        let pt = b"abcdefghijklmnopqrstuvwxyz".to_vec();
        let out = seal(alg, &pt, 10);
        for i in 0..out.len() {
            let mut bad = out.clone();
            bad[i] ^= 0x01;
            assert!(open(alg, &bad).is_err(), "byte {i}");
        }
    }
}

#[test]
fn swapping_frames_fails() {
    for alg in ALGS {
        let pt = b"0123456789ABCDEFGHIJ".to_vec();
        let out = seal(alg, &pt, 10);
        assert_eq!(out.len(), 60);
        let mut swapped = out[30..].to_vec();
        swapped.extend_from_slice(&out[..30]);
        assert_eq!(open(alg, &swapped), Err(SealVaultError::InvalidPasswordOrFile));
    }
}

#[test]
fn wrong_key_fails() {
    let out = seal(AeadAlgorithm::XChaCha20Poly1305, b"secret", 16);
    let mut d = StreamDecryptor::new(&[8u8; 32], base(), AeadAlgorithm::XChaCha20Poly1305);
    assert_eq!(d.decrypt(&out), Err(SealVaultError::InvalidPasswordOrFile));
    assert!(d.is_failed());
}

#[test]
fn wrong_algorithm_fails() {
    let out = seal(AeadAlgorithm::XChaCha20Poly1305, b"secret", 16);
    assert_eq!(open(AeadAlgorithm::Aes256Gcm, &out), Err(SealVaultError::InvalidPasswordOrFile));
}

#[test]
fn zero_length_frame_is_corrupted() {
    let mut frames = vec![0u8, 0, 0, 0];
    frames.extend_from_slice(&[0u8; 16]);
    assert_eq!(open(AeadAlgorithm::XChaCha20Poly1305, &frames), Err(SealVaultError::CorruptedStream));
    assert_eq!(frame_body_len(&[0, 0, 0, 0]), Err(SealVaultError::CorruptedStream));
    assert_eq!(frame_body_len(&[0, 1, 0, 2]), Ok(65538));
}

#[test]
fn truncated_stream_is_corrupted() {
    let out = seal(AeadAlgorithm::Aes256Gcm, b"hello world", 16);
    assert_eq!(open(AeadAlgorithm::Aes256Gcm, &out[..2]), Err(SealVaultError::CorruptedStream));
    assert_eq!(open(AeadAlgorithm::Aes256Gcm, &out[..out.len() - 1]), Err(SealVaultError::CorruptedStream));
    let mut extra = out.clone();
    extra.extend_from_slice(&[0, 0]);
    assert_eq!(open(AeadAlgorithm::Aes256Gcm, &extra), Err(SealVaultError::CorruptedStream));
}

#[test]
fn dropping_trailing_frames_still_opens_the_prefix() {
    let pt: Vec<u8> = (0..20u8).collect();
    let out = seal(AeadAlgorithm::XChaCha20Poly1305, &pt, 10);
    assert_eq!(open(AeadAlgorithm::XChaCha20Poly1305, &out[..30]), Ok(pt[..10].to_vec()));
}

#[test]
fn default_chunk_size_is_64_kib() {
    assert_eq!(DEFAULT_CHUNK_SIZE, 65536);
}
