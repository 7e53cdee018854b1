pub mod bytes;
pub mod algorithm;
pub mod error;
pub mod kdf;
pub mod xchacha20_poly1305;
pub mod aes_256_gcm;
pub mod header;
pub mod stream;
pub mod container;
pub mod folder;
pub mod atomic;
pub mod aead;

pub use algorithm::AeadAlgorithm;
pub use container::{decrypt, encrypt, encrypt_with_algorithm, encrypt_with_parameters};
pub use error::SealVaultError;
