use vstd::prelude::*;

verus! {

/// Why an operation of the library failed.
#[derive(Debug, Clone, Copy, PartialEq, Eq, Structural)]
pub enum SealVaultError {
    /// The underlying file or stream layer failed.
    Io,
    /// A chunk did not authenticate: wrong password or altered data.
    InvalidPasswordOrFile,
    /// The container declares a format version this library does not know.
    UnsupportedVersion,
    /// Bad magic, unknown algorithm id, zero chunk size or truncated header.
    CorruptedHeader,
    /// A zero-length chunk frame or a truncated frame.
    CorruptedStream,
    /// A relative path holds a component other than a plain name.
    UnsafePath,
    /// A joined path no longer lies under the destination root.
    PathEscapesDestination,
    /// The caller's input is not what the operation needs.
    InvalidInput,
    /// Reserved for callers that refuse to overwrite an existing output.
    AlreadyExists,
    /// Key derivation or cipher construction failed.
    Internal,
}

} // verus!
