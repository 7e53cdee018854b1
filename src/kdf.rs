use vstd::prelude::*;
use vstd::string::StringSliceAdditionalSpecFns;

use argon2::password_hash::SaltString;
use argon2::{Algorithm, Argon2, Params, Version};
use rand::rngs::OsRng;
use rand::RngCore;

use crate::error::SealVaultError;

verus! {

/// Length of a derived key in bytes.
pub const KEY_LEN: usize = 32;

/// A derived symmetric key. Its bytes are overwritten with zeros when it is
/// dropped, on every path that leaves the scope that holds it.
pub struct SecretKey {
    bytes: [u8; 32],
}

impl View for SecretKey {
    type V = Seq<u8>;

    closed spec fn view(&self) -> Seq<u8> {
        self.bytes@
    }
}

impl SecretKey {
    pub fn from_bytes(bytes: [u8; 32]) -> (r: SecretKey)
        ensures
            r@ == bytes@,
    {
        SecretKey { bytes }
    }

    pub fn bytes(&self) -> (r: &[u8; 32])
        ensures
            r@ == self@,
    {
        &self.bytes
    }

    /// Overwrites the key with zeros at once, without waiting for the drop.
    pub fn wipe(&mut self)
        ensures
            final(self)@ == Seq::new(32, |_i: int| 0u8),
    {
        wipe(&mut self.bytes);
    }
}

impl Drop for SecretKey {
    /// Relies on zeroize's `Zeroize` for byte arrays: the key's bytes are
    /// overwritten with zeros when it goes out of scope.
    #[verifier::external_body]
    fn drop(&mut self)
        opens_invariants none
        no_unwind
    {
        zeroize::Zeroize::zeroize(&mut self.bytes)
    }
}

/// Relies on zeroize's `Zeroize` for byte arrays: every byte is set to zero.
#[verifier::external_body]
fn wipe(bytes: &mut [u8; 32])
    ensures
        final(bytes)@ == Seq::new(32, |_i: int| 0u8),
{
    zeroize::Zeroize::zeroize(bytes)
}

/// Argon2id memory cost in KiB (64 MiB).
pub const KDF_MEMORY_KIB: u32 = 65536;

/// Argon2id passes over memory.
pub const KDF_ITERATIONS: u32 = 3;

/// Argon2id lanes.
pub const KDF_PARALLELISM: u32 = 1;

/// The unpadded standard-alphabet base64 text of a salt, as `SaltString`
/// encodes it.
pub uninterp spec fn salt_b64_of(salt: Seq<u8>) -> Seq<u8>;

/// The 32-byte Argon2id (version 0x13) output for a password, salt and costs.
pub uninterp spec fn argon2id_output(password: Seq<u8>, salt: Seq<u8>, m_cost: u32, t_cost: u32, p_cost: u32) -> Seq<u8>;

/// The key of a password and a 16-byte salt: Argon2id with the fixed costs,
/// fed the salt's base64 text.
pub open spec fn derived_key(password: Seq<u8>, salt: Seq<u8>) -> Seq<u8> {
    argon2id_output(password, salt_b64_of(salt), KDF_MEMORY_KIB, KDF_ITERATIONS, KDF_PARALLELISM)
}

/// Relies on password-hash's `SaltString::encode_b64` and `as_str`: unpadded
/// base64 into a 64-byte buffer, so 16 bytes always fit, as 22 characters.
#[verifier::external_body]
fn salt_b64(salt: &[u8; 16]) -> (r: Result<Vec<u8>, ()>)
    ensures
        r is Ok,
        r is Ok ==> r->Ok_0@ == salt_b64_of(salt@),
        r is Ok ==> r->Ok_0@.len() == 22,
{
    SaltString::encode_b64(salt).map(|s| s.as_str().as_bytes().to_vec()).map_err(|_| ())
}

/// Relies on argon2's `Params::new`, `Argon2::new` and `hash_password_into`
/// (Argon2id, version 0x13, 32-byte output): it succeeds exactly when the
/// costs pass `Params::new` and the password and salt lengths pass
/// `verify_inputs`.
#[verifier::external_body]
fn argon2id(password: &[u8], salt: &[u8], m_cost: u32, t_cost: u32, p_cost: u32) -> (r: Result<[u8; 32], ()>)
    requires
        p_cost <= 0xff_ffff,
    ensures
        r is Ok ==> r->Ok_0@ == argon2id_output(password@, salt@, m_cost, t_cost, p_cost),
        r is Ok <==> (8 <= m_cost && 8 * p_cost <= m_cost && 1 <= t_cost && 1 <= p_cost && password@.len() <= u32::MAX
            && 8 <= salt@.len() <= u32::MAX),
{
    let params = Params::new(m_cost, t_cost, p_cost, Some(32)).map_err(|_| ())?;
    let mut out = [0u8; 32];
    let argon2 = Argon2::new(Algorithm::Argon2id, Version::V0x13, params);
    argon2.hash_password_into(password, salt, &mut out).map_err(|_| ())?;
    Ok(out)
}

/// Relies on rand's `OsRng::try_fill_bytes`: the operating system's secure
/// random source fills `n` bytes, or reports that it could not.
#[verifier::external_body]
fn os_random_bytes(n: usize) -> (r: Result<Vec<u8>, ()>)
    ensures
        r is Ok ==> r->Ok_0@.len() == n,
{
    let mut v = vec![0u8; n];
    OsRng.try_fill_bytes(&mut v).map_err(|_| ())?;
    Ok(v)
}

/// `N` fresh bytes from the operating system's secure random source.
pub fn random_array<const N: usize>() -> (r: Result<[u8; N], SealVaultError>)
    ensures
        r is Err ==> r->Err_0 == SealVaultError::Internal,
{
    match os_random_bytes(N) {
        Ok(v) => {
            let mut a = [0u8; N];
            let mut i: usize = 0;
            while i < N
                invariant
                    v@.len() == N,
                    a@.len() == N,
                decreases N - i,
            {
                a[i] = v[i];
                i = i + 1;
            }
            Ok(a)
        },
        Err(_) => Err(SealVaultError::Internal),
    }
}

/// A fresh 16-byte salt; every container gets its own.
pub fn generate_salt() -> (r: Result<[u8; 16], SealVaultError>)
    ensures
        r is Err ==> r->Err_0 == SealVaultError::Internal,
{
    random_array()
}

/// Derives the 32-byte key of a password and salt with Argon2id (64 MiB,
/// 3 passes, 1 lane). It fails only for a password longer than 2^32 - 1 bytes.
pub fn derive_key(password: &str, salt: &[u8; 16]) -> (r: Result<SecretKey, SealVaultError>)
    ensures
        r is Ok <==> password.spec_bytes().len() <= u32::MAX,
        r is Ok ==> r->Ok_0@ == derived_key(password.spec_bytes(), salt@),
        r is Err ==> r->Err_0 == SealVaultError::Internal,
{
    let encoded = match salt_b64(salt) {
        Ok(e) => e,
        Err(_) => {
            return Err(SealVaultError::Internal);
        },
    };
    let pw = password.as_bytes();
    match argon2id(pw, encoded.as_slice(), KDF_MEMORY_KIB, KDF_ITERATIONS, KDF_PARALLELISM) {
        Ok(bytes) => Ok(SecretKey::from_bytes(bytes)),
        Err(_) => Err(SealVaultError::Internal),
    }
}

} // verus!
