use vstd::prelude::*;
use vstd::string::StringSliceAdditionalSpecFns;

use crate::bytes::bytes_equal;
use crate::error::SealVaultError;

verus! {

/// The AEAD algorithms a container can be sealed with.
#[derive(Debug, Clone, Copy, PartialEq, Eq, Structural)]
pub enum AeadAlgorithm {
    XChaCha20Poly1305,
    Aes256Gcm,
}

/// On-disk identifier of XChaCha20-Poly1305.
pub const XCHACHA20_POLY1305_ID: u8 = 1;

/// On-disk identifier of AES-256-GCM.
pub const AES_256_GCM_ID: u8 = 2;

/// The algorithm used when the caller names none, and by version 1 containers.
pub const DEFAULT_AEAD_ALGORITHM: AeadAlgorithm = AeadAlgorithm::XChaCha20Poly1305;

/// The stable identifier of an algorithm.
pub open spec fn algorithm_id(a: AeadAlgorithm) -> u8 {
    match a {
        AeadAlgorithm::XChaCha20Poly1305 => 1u8,
        AeadAlgorithm::Aes256Gcm => 2u8,
    }
}

/// The algorithm an identifier stands for, if any.
pub open spec fn algorithm_of_id(id: u8) -> Option<AeadAlgorithm> {
    if id == 1 {
        Some(AeadAlgorithm::XChaCha20Poly1305)
    } else if id == 2 {
        Some(AeadAlgorithm::Aes256Gcm)
    } else {
        None
    }
}

impl AeadAlgorithm {
    pub fn to_u8(self) -> (r: u8)
        ensures
            r == algorithm_id(self),
    {
        match self {
            AeadAlgorithm::XChaCha20Poly1305 => XCHACHA20_POLY1305_ID,
            AeadAlgorithm::Aes256Gcm => AES_256_GCM_ID,
        }
    }

    pub fn from_u8(value: u8) -> (r: Option<AeadAlgorithm>)
        ensures
            r == algorithm_of_id(value),
    {
        if value == XCHACHA20_POLY1305_ID {
            Some(AeadAlgorithm::XChaCha20Poly1305)
        } else if value == AES_256_GCM_ID {
            Some(AeadAlgorithm::Aes256Gcm)
        } else {
            None
        }
    }
}

/// Identifiers and algorithms correspond one to one: decoding the identifier
/// of an algorithm gives that algorithm back, and an identifier that decodes
/// to an algorithm is that algorithm's identifier.
pub proof fn lemma_algorithm_id_round_trip(a: AeadAlgorithm, id: u8)
    ensures
        algorithm_of_id(algorithm_id(a)) == Some(a),
        algorithm_of_id(id) == Some(a) <==> algorithm_id(a) == id,
{
}

/// "xchacha20"
pub const NAME_XCHACHA20: [u8; 9] = [0x78, 0x63, 0x68, 0x61, 0x63, 0x68, 0x61, 0x32, 0x30];

/// "xchacha20poly1305"
pub const NAME_XCHACHA20_POLY1305: [u8; 17] = [
    0x78, 0x63, 0x68, 0x61, 0x63, 0x68, 0x61, 0x32, 0x30, 0x70, 0x6f, 0x6c, 0x79, 0x31, 0x33, 0x30, 0x35,
];

/// "aes256gcm"
pub const NAME_AES256GCM: [u8; 9] = [0x61, 0x65, 0x73, 0x32, 0x35, 0x36, 0x67, 0x63, 0x6d];

/// "aes-256-gcm"
pub const NAME_AES_256_GCM: [u8; 11] = [0x61, 0x65, 0x73, 0x2d, 0x32, 0x35, 0x36, 0x2d, 0x67, 0x63, 0x6d];

/// The algorithm a user-facing name selects; no name selects the default.
pub open spec fn algorithm_of_name(name: Option<Seq<u8>>) -> Result<AeadAlgorithm, SealVaultError> {
    match name {
        None => Ok(DEFAULT_AEAD_ALGORITHM),
        Some(n) => if n == NAME_XCHACHA20@ || n == NAME_XCHACHA20_POLY1305@ {
            Ok(AeadAlgorithm::XChaCha20Poly1305)
        } else if n == NAME_AES256GCM@ || n == NAME_AES_256_GCM@ {
            Ok(AeadAlgorithm::Aes256Gcm)
        } else {
            Err(SealVaultError::InvalidInput)
        },
    }
}

/// Reads an algorithm name as given on a command line.
pub fn parse_algorithm(arg: Option<&str>) -> (r: Result<AeadAlgorithm, SealVaultError>)
    ensures
        r == algorithm_of_name(match arg {
            None => None,
            Some(s) => Some(s.spec_bytes()),
        }),
{
    match arg {
        None => Ok(DEFAULT_AEAD_ALGORITHM),
        Some(s) => {
            let b = s.as_bytes();
            if bytes_equal(b, &NAME_XCHACHA20) || bytes_equal(b, &NAME_XCHACHA20_POLY1305) {
                Ok(AeadAlgorithm::XChaCha20Poly1305)
            } else if bytes_equal(b, &NAME_AES256GCM) || bytes_equal(b, &NAME_AES_256_GCM) {
                Ok(AeadAlgorithm::Aes256Gcm)
            } else {
                Err(SealVaultError::InvalidInput)
            }
        },
    }
}

} // verus!
