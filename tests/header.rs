use sealvault::header::{Header, HEADER_SIZE, HEADER_SIZE_V1, HEADER_SIZE_V2, MAGIC, VERSION, VERSION_V1};
use sealvault::{AeadAlgorithm, SealVaultError};

fn sample_header(algorithm: AeadAlgorithm) -> Header {
    let mut salt = [0u8; 16];
    for (i, b) in salt.iter_mut().enumerate() {
        *b = i as u8;
    }
    let mut nonce = [0u8; 24];
    for (i, b) in nonce.iter_mut().enumerate() {
        *b = 0xa0 + i as u8;
    }
    Header::new(salt, nonce, 65536, algorithm)
}

#[test]
fn header_layout_is_exact() {
    let h = sample_header(AeadAlgorithm::Aes256Gcm);
    let mut out = Vec::new();
    h.write(&mut out);
    assert_eq!(out.len(), 54);
    assert_eq!(HEADER_SIZE, 54);
    assert_eq!(HEADER_SIZE_V2, 54);
    assert_eq!(HEADER_SIZE_V1, 53);
    assert_eq!(&out[0..8], b"SVLTv1\0\0");
    assert_eq!(&out[0..8], &MAGIC);
    assert_eq!(out[8], VERSION);
    assert_eq!(out[9], 2);
    assert_eq!(&out[10..26], &h.salt);
    assert_eq!(&out[26..50], &h.base_nonce);
    assert_eq!(&out[50..54], &[0, 1, 0, 0]);
}

#[test]
fn header_write_appends() {
    let h = sample_header(AeadAlgorithm::XChaCha20Poly1305);
    let mut out = vec![9u8, 9];
    h.write(&mut out);
    assert_eq!(out.len(), 56);
    assert_eq!(&out[0..2], &[9, 9]);
}

#[test]
fn header_round_trip_leaves_rest() {
    for alg in [AeadAlgorithm::XChaCha20Poly1305, AeadAlgorithm::Aes256Gcm] {
        let h = sample_header(alg);
        let mut out = Vec::new();
        h.write(&mut out);
        out.extend_from_slice(&[1, 2, 3]);
        let (r, n) = Header::read(&out).expect("header");
        assert_eq!(n, 54);
        assert_eq!(r.version, 2);
        assert_eq!(r.algorithm, alg);
        assert_eq!(r.salt, h.salt);
        assert_eq!(r.base_nonce, h.base_nonce);
        assert_eq!(r.chunk_size, 65536);
        assert_eq!(&out[n..], &[1, 2, 3]);
    }
}

#[test]
fn header_version_one_has_no_algorithm_byte() {
    let mut h = sample_header(AeadAlgorithm::XChaCha20Poly1305);
    h.version = VERSION_V1;
    let mut out = Vec::new();
    h.write(&mut out);
    assert_eq!(out.len(), 53);
    let (r, n) = Header::read(&out).expect("v1 header");
    assert_eq!(n, 53);
    assert_eq!(r.version, 1);
    assert_eq!(r.algorithm, AeadAlgorithm::XChaCha20Poly1305);
    assert_eq!(r.chunk_size, 65536);
}

#[test]
fn header_rejects_wrong_magic() {
    let h = sample_header(AeadAlgorithm::XChaCha20Poly1305);
    let mut out = Vec::new();
    h.write(&mut out);
    out[3] ^= 0x01;
    assert_eq!(Header::read(&out).err(), Some(SealVaultError::CorruptedHeader));
    assert_eq!(Header::read(b"not a sealvault file").err(), Some(SealVaultError::CorruptedHeader));
}

#[test]
fn header_rejects_unknown_version() {
    let h = sample_header(AeadAlgorithm::XChaCha20Poly1305);
    let mut out = Vec::new();
    h.write(&mut out);
    for v in [0u8, 3, 200] {
        out[8] = v;
        assert_eq!(Header::read(&out).err(), Some(SealVaultError::UnsupportedVersion));
    }
}

#[test]
fn header_rejects_unknown_algorithm() {
    let h = sample_header(AeadAlgorithm::XChaCha20Poly1305);
    let mut out = Vec::new();
    h.write(&mut out);
    out[9] = 7;
    assert_eq!(Header::read(&out).err(), Some(SealVaultError::CorruptedHeader));
}

#[test]
fn header_rejects_zero_chunk_size() {
    let mut h = sample_header(AeadAlgorithm::XChaCha20Poly1305);
    h.chunk_size = 0;
    let mut out = Vec::new();
    h.write(&mut out);
    assert_eq!(Header::read(&out).err(), Some(SealVaultError::CorruptedHeader));
}

#[test]
fn header_rejects_truncation() {
    let h = sample_header(AeadAlgorithm::Aes256Gcm);
    let mut out = Vec::new();
    h.write(&mut out);
    for len in [0usize, 7, 8, 9, 10, 30, 53] {
        assert_eq!(Header::read(&out[..len]).err(), Some(SealVaultError::CorruptedHeader), "length {len}");
    }
}
