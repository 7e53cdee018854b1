use vstd::prelude::*;

use crate::algorithm::{algorithm_id, algorithm_of_id, AeadAlgorithm, DEFAULT_AEAD_ALGORITHM};
use crate::bytes::{decode_u32_be, encode_u32_be, lemma_u32_be_round_trip, u32_be, u32_from_be};
use crate::error::SealVaultError;

verus! {

/// The 8 bytes that open every container: "SVLTv1" and two zero bytes.
pub const MAGIC: [u8; 8] = [0x53, 0x56, 0x4c, 0x54, 0x76, 0x31, 0x00, 0x00];

/// Version whose header has no algorithm byte (XChaCha20-Poly1305 implied).
pub const VERSION_V1: u8 = 1;

/// Version whose header carries the algorithm identifier.
pub const VERSION_V2: u8 = 2;

/// The version written by this library.
pub const VERSION: u8 = VERSION_V2;

/// Length of the key-derivation salt.
pub const SALT_SIZE: usize = 16;

/// Length of the base nonce stored in the header.
pub const BASE_NONCE_SIZE: usize = 24;

/// Header length of version 1: magic, version, salt, base nonce, chunk size.
pub const HEADER_SIZE_V1: usize = 53;

/// Header length of version 2, which adds the algorithm byte.
pub const HEADER_SIZE_V2: usize = 54;

/// Header length of the current version.
pub const HEADER_SIZE: usize = HEADER_SIZE_V2;

pub open spec fn magic_bytes() -> Seq<u8> {
    seq![0x53u8, 0x56u8, 0x4cu8, 0x54u8, 0x76u8, 0x31u8, 0x00u8, 0x00u8]
}

/// The fixed record at the start of a container.
#[derive(Debug, Clone, Copy)]
pub struct Header {
    pub version: u8,
    pub algorithm: AeadAlgorithm,
    pub salt: [u8; 16],
    pub base_nonce: [u8; 24],
    pub chunk_size: u32,
}

/// A header as values: the salt and base nonce as byte sequences.
pub struct HeaderModel {
    pub version: u8,
    pub algorithm: AeadAlgorithm,
    pub salt: Seq<u8>,
    pub base_nonce: Seq<u8>,
    pub chunk_size: u32,
}

impl View for Header {
    type V = HeaderModel;

    open spec fn view(&self) -> HeaderModel {
        HeaderModel {
            version: self.version,
            algorithm: self.algorithm,
            salt: self.salt@,
            base_nonce: self.base_nonce@,
            chunk_size: self.chunk_size,
        }
    }
}

/// A header that a reader accepts: a known version, a nonzero chunk size,
/// and for version 1 the implied algorithm.
pub open spec fn header_valid(h: HeaderModel) -> bool {
    &&& h.version == VERSION_V1 || h.version == VERSION_V2
    &&& h.chunk_size > 0
    &&& h.salt.len() == 16
    &&& h.base_nonce.len() == 24
    &&& h.version == VERSION_V1 ==> h.algorithm == DEFAULT_AEAD_ALGORITHM
}

/// The bytes a header is written as.
pub open spec fn header_bytes(h: HeaderModel) -> Seq<u8> {
    magic_bytes() + seq![h.version] + (if h.version >= VERSION_V2 {
        seq![algorithm_id(h.algorithm)]
    } else {
        Seq::<u8>::empty()
    }) + h.salt + h.base_nonce + u32_be(h.chunk_size)
}

/// The header at the start of `b`, with the number of bytes it takes, or why
/// there is none. The magic is checked before anything else is read.
pub open spec fn parse_header(b: Seq<u8>) -> Result<(HeaderModel, nat), SealVaultError> {
    if b.len() < 8 || b.subrange(0, 8) != magic_bytes() {
        Err(SealVaultError::CorruptedHeader)
    } else if b.len() < 9 {
        Err(SealVaultError::CorruptedHeader)
    } else if b[8] != VERSION_V1 && b[8] != VERSION_V2 {
        Err(SealVaultError::UnsupportedVersion)
    } else if b[8] == VERSION_V2 && (b.len() < 10 || algorithm_of_id(b[9]) is None) {
        Err(SealVaultError::CorruptedHeader)
    } else {
        let pos: int = if b[8] == VERSION_V1 { 9 } else { 10 };
        if b.len() < pos + 44 {
            Err(SealVaultError::CorruptedHeader)
        } else if u32_from_be(b.subrange(pos + 40, pos + 44)) == 0 {
            Err(SealVaultError::CorruptedHeader)
        } else {
            Ok((
                HeaderModel {
                    version: b[8],
                    algorithm: if b[8] == VERSION_V1 {
                        DEFAULT_AEAD_ALGORITHM
                    } else {
                        algorithm_of_id(b[9])->0
                    },
                    salt: b.subrange(pos, pos + 16),
                    base_nonce: b.subrange(pos + 16, pos + 40),
                    chunk_size: u32_from_be(b.subrange(pos + 40, pos + 44)),
                },
                (pos + 44) as nat,
            ))
        }
    }
}

/// Copies `N` bytes of `input` from `start` into an array.
fn read_array<const N: usize>(input: &[u8], start: usize) -> (r: [u8; N])
    requires
        start + N <= input@.len(),
    ensures
        r@ == input@.subrange(start as int, start + N),
{
    let mut r = [0u8; N];
    let mut i: usize = 0;
    while i < N
        invariant
            i <= N,
            start + N <= input@.len(),
            r@.len() == N,
            forall|k: int| 0 <= k < i ==> #[trigger] r@[k] == input@[start + k],
        decreases N - i,
    {
        assert(start + i < input.len());
        r[i] = input[start + i];
        i = i + 1;
    }
    assert(r@ =~= input@.subrange(start as int, start + N));
    r
}

/// Appends every byte of `src` to `out`.
pub fn append_bytes(out: &mut Vec<u8>, src: &[u8])
    ensures
        final(out)@ == old(out)@ + src@,
{
    let mut i: usize = 0;
    while i < src.len()
        invariant
            i <= src@.len(),
            out@ == old(out)@ + src@.subrange(0, i as int),
        decreases src@.len() - i,
    {
        out.push(src[i]);
        i = i + 1;
        assert(src@.subrange(0, i as int) =~= src@.subrange(0, i - 1) + seq![src@[i - 1]]);
    }
    assert(src@.subrange(0, src@.len() as int) =~= src@);
}

impl Header {
    pub fn new(salt: [u8; 16], base_nonce: [u8; 24], chunk_size: u32, algorithm: AeadAlgorithm) -> (r: Header)
        ensures
            r.version == VERSION,
            r.algorithm == algorithm,
            r.salt == salt,
            r.base_nonce == base_nonce,
            r.chunk_size == chunk_size,
    {
        Header { version: VERSION, algorithm, salt, base_nonce, chunk_size }
    }

    /// Appends the header's bytes to `out`.
    pub fn write(&self, out: &mut Vec<u8>)
        ensures
            final(out)@ == old(out)@ + header_bytes(self@),
    {
        append_bytes(out, &MAGIC);
        out.push(self.version);
        if self.version >= VERSION_V2 {
            out.push(self.algorithm.to_u8());
        }
        append_bytes(out, &self.salt);
        append_bytes(out, &self.base_nonce);
        let cs = encode_u32_be(self.chunk_size);
        append_bytes(out, &cs);
        assert(MAGIC@ =~= magic_bytes());
        assert(final(out)@ =~= old(out)@ + header_bytes(self@));
    }

    /// Reads the header at the start of `input`; on success also returns how
    /// many bytes it took, so that the chunk frames start right after.
    pub fn read(input: &[u8]) -> (r: Result<(Header, usize), SealVaultError>)
        ensures
            match parse_header(input@) {
                Ok((h, n)) => r is Ok && r->Ok_0.0@ == h && r->Ok_0.1 == n,
                Err(e) => r == Err::<(Header, usize), SealVaultError>(e),
            },
    {
        assert(MAGIC@ =~= magic_bytes());
        if input.len() < 8 {
            return Err(SealVaultError::CorruptedHeader);
        }
        let mut i: usize = 0;
        while i < 8
            invariant
                i <= 8,
                input@.len() >= 8,
                MAGIC@ == magic_bytes(),
                forall|k: int| 0 <= k < i ==> input@[k] == magic_bytes()[k],
            decreases 8 - i,
        {
            if input[i] != MAGIC[i] {
                assert(input@.subrange(0, 8)[i as int] != magic_bytes()[i as int]);
                return Err(SealVaultError::CorruptedHeader);
            }
            i = i + 1;
        }
        assert(input@.subrange(0, 8) =~= magic_bytes());
        if input.len() < 9 {
            return Err(SealVaultError::CorruptedHeader);
        }
        let version = input[8];
        let mut pos: usize = 9;
        let algorithm = if version == VERSION_V1 {
            DEFAULT_AEAD_ALGORITHM
        } else if version == VERSION_V2 {
            if input.len() < 10 {
                return Err(SealVaultError::CorruptedHeader);
            }
            pos = 10;
            match AeadAlgorithm::from_u8(input[9]) {
                Some(a) => a,
                None => {
                    return Err(SealVaultError::CorruptedHeader);
                },
            }
        } else {
            return Err(SealVaultError::UnsupportedVersion);
        };
        if input.len() - pos < 44 {
            return Err(SealVaultError::CorruptedHeader);
        }
        let salt: [u8; 16] = read_array(input, pos);
        let base_nonce: [u8; 24] = read_array(input, pos + 16);
        let cs: [u8; 4] = read_array(input, pos + 40);
        let chunk_size = decode_u32_be(&cs);
        if chunk_size == 0 {
            return Err(SealVaultError::CorruptedHeader);
        }
        let h = Header { version, algorithm, salt, base_nonce, chunk_size };
        Ok((h, pos + 44))
    }
}

/// Reading what `write` produced for a valid header, followed by anything,
/// gives the same header back and stops exactly where the header ends.
pub proof fn lemma_header_round_trip(h: HeaderModel, rest: Seq<u8>)
    requires
        header_valid(h),
    ensures
        parse_header(header_bytes(h) + rest) == Ok::<(HeaderModel, nat), SealVaultError>((h, header_bytes(h).len())),
        header_bytes(h).len() == if h.version == VERSION_V1 { HEADER_SIZE_V1 } else { HEADER_SIZE_V2 },
{
    let b = header_bytes(h) + rest;
    let pos: int = if h.version == VERSION_V1 { 9 } else { 10 };
    lemma_u32_be_round_trip(h.chunk_size);
    assert(b.subrange(0, 8) =~= magic_bytes());
    assert(b[8] == h.version);
    if h.version == VERSION_V2 {
        assert(b[9] == algorithm_id(h.algorithm));
    }
    assert(b.subrange(pos, pos + 16) =~= h.salt);
    assert(b.subrange(pos + 16, pos + 40) =~= h.base_nonce);
    assert(b.subrange(pos + 40, pos + 44) =~= u32_be(h.chunk_size));
    let p = parse_header(b);
    assert(p is Ok);
    assert(p->Ok_0.0 == h);
}

/// A header is refused before anything after it is looked at: wrong magic,
/// an unknown version, or (from version 2) an unknown algorithm identifier
/// each fail, whatever follows.
pub proof fn lemma_header_rejection(b: Seq<u8>)
    ensures
        b.len() >= 8 && b.subrange(0, 8) != magic_bytes() ==> parse_header(b) == Err::<(HeaderModel, nat), SealVaultError>(SealVaultError::CorruptedHeader),
        b.len() >= 9 && b.subrange(0, 8) == magic_bytes() && b[8] != VERSION_V1 && b[8] != VERSION_V2
            ==> parse_header(b) == Err::<(HeaderModel, nat), SealVaultError>(SealVaultError::UnsupportedVersion),
        b.len() >= 10 && b.subrange(0, 8) == magic_bytes() && b[8] == VERSION_V2 && algorithm_of_id(b[9]) is None
            ==> parse_header(b) == Err::<(HeaderModel, nat), SealVaultError>(SealVaultError::CorruptedHeader),
{
}

} // verus!
