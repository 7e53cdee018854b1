use vstd::prelude::*;

use crate::aes_256_gcm::{self, aes_256_gcm_open, aes_256_gcm_seal, gcm_nonce, lemma_gcm_nonce_unique};
use crate::algorithm::AeadAlgorithm;
use crate::bytes::{copy_range, decode_u32_be, lemma_u64_be_injective, encode_u32_be, encode_u64_be, lemma_u32_be_round_trip, u32_be, u32_from_be, u64_be};
use crate::error::SealVaultError;
use crate::header::append_bytes;
use crate::kdf::SecretKey;
use crate::xchacha20_poly1305::{self, lemma_xchacha_nonce_unique, xchacha20_poly1305_open, xchacha20_poly1305_seal, xchacha_nonce};

verus! {

/// Length of the authentication tag that ends every frame.
pub const TAG_SIZE: usize = 16;

/// Length of the big-endian body length that starts every frame.
pub const LEN_SIZE: usize = 4;

/// Plaintext bytes per chunk unless the caller chooses otherwise.
pub const DEFAULT_CHUNK_SIZE: usize = 65536;

/// Ciphertext-and-tag of the chunk at `index`; its associated data is the
/// big-endian index.
pub open spec fn chunk_seal(alg: AeadAlgorithm, key: Seq<u8>, base: Seq<u8>, index: int, msg: Seq<u8>) -> Seq<u8> {
    match alg {
        AeadAlgorithm::XChaCha20Poly1305 => xchacha20_poly1305_seal(key, xchacha_nonce(base, index as u64), msg, u64_be(index as u64)),
        AeadAlgorithm::Aes256Gcm => aes_256_gcm_seal(key, gcm_nonce(base, index as u64), msg, u64_be(index as u64)),
    }
}

/// What decrypting a ciphertext-and-tag as the chunk at `index` gives.
pub open spec fn chunk_open(alg: AeadAlgorithm, key: Seq<u8>, base: Seq<u8>, index: int, ct: Seq<u8>) -> Option<Seq<u8>> {
    match alg {
        AeadAlgorithm::XChaCha20Poly1305 => xchacha20_poly1305_open(key, xchacha_nonce(base, index as u64), ct, u64_be(index as u64)),
        AeadAlgorithm::Aes256Gcm => aes_256_gcm_open(key, gcm_nonce(base, index as u64), ct, u64_be(index as u64)),
    }
}

/// A chunk's plaintext is nonempty and its length fits the frame's prefix.
pub open spec fn chunk_len_ok(m: Seq<u8>) -> bool {
    0 < m.len() <= u32::MAX
}

/// The wire form of a ciphertext-and-tag: the body length, the body, the tag.
pub open spec fn frame(ct: Seq<u8>) -> Seq<u8> {
    u32_be((ct.len() - 16) as u32) + ct
}

/// The frames of `chunks`, the first sealed as chunk `index`.
#[verifier::opaque]
pub open spec fn sealed_frames(alg: AeadAlgorithm, key: Seq<u8>, base: Seq<u8>, index: int, chunks: Seq<Seq<u8>>) -> Seq<u8>
    decreases chunks.len(),
{
    if chunks.len() == 0 {
        Seq::empty()
    } else {
        frame(chunk_seal(alg, key, base, index, chunks[0])) + sealed_frames(alg, key, base, index + 1, chunks.drop_first())
    }
}

/// The plaintext cut into pieces of `size` bytes, the last one possibly
/// shorter; no piece for an empty plaintext.
pub open spec fn chunks_of(pt: Seq<u8>, size: nat) -> Seq<Seq<u8>>
    decreases pt.len(),
{
    if pt.len() == 0 || size == 0 {
        Seq::empty()
    } else if pt.len() <= size {
        seq![pt]
    } else {
        seq![pt.subrange(0, size as int)] + chunks_of(pt.subrange(size as int, pt.len() as int), size)
    }
}

/// The pieces joined back together.
pub open spec fn flatten(chunks: Seq<Seq<u8>>) -> Seq<u8>
    decreases chunks.len(),
{
    if chunks.len() == 0 {
        Seq::empty()
    } else {
        chunks[0] + flatten(chunks.drop_first())
    }
}

/// What decrypting a run of frames gives, the first one read as chunk
/// `index`: the plaintexts joined, or the first failure met. Input that ends
/// exactly after a frame ends the stream cleanly.
#[verifier::opaque]
pub open spec fn open_frames(alg: AeadAlgorithm, key: Seq<u8>, base: Seq<u8>, index: int, b: Seq<u8>) -> Result<Seq<u8>, SealVaultError>
    decreases b.len(),
{
    if b.len() == 0 {
        Ok(Seq::empty())
    } else if b.len() < 4 {
        Err(SealVaultError::CorruptedStream)
    } else {
        let n = u32_from_be(b.subrange(0, 4)) as int;
        if n == 0 || b.len() < 4 + n + 16 {
            Err(SealVaultError::CorruptedStream)
        } else {
            match chunk_open(alg, key, base, index, b.subrange(4, 4 + n + 16)) {
                None => Err(SealVaultError::InvalidPasswordOrFile),
                Some(p) => match open_frames(alg, key, base, index + 1, b.subrange(4 + n + 16, b.len() as int)) {
                    Ok(rest) => Ok(p + rest),
                    Err(e) => Err(e),
                },
            }
        }
    }
}

/// Every piece is a valid chunk plaintext.
pub open spec fn chunks_valid(chunks: Seq<Seq<u8>>) -> bool {
    forall|i: int| 0 <= i < chunks.len() ==> chunk_len_ok(#[trigger] chunks[i])
}

/// Each chunk's ciphertext-and-tag is 16 bytes longer than its plaintext.
pub open spec fn seals_sized(alg: AeadAlgorithm, key: Seq<u8>, base: Seq<u8>, index: int, chunks: Seq<Seq<u8>>) -> bool {
    forall|i: int| 0 <= i < chunks.len() ==> chunk_seal(alg, key, base, index + i, #[trigger] chunks[i]).len() == chunks[i].len() + 16
}

/// How many frames `open_frames` reads from `b` before it stops.
#[verifier::opaque]
pub open spec fn count_frames(b: Seq<u8>) -> nat
    decreases b.len(),
{
    if b.len() < 4 {
        0
    } else {
        let n = u32_from_be(b.subrange(0, 4)) as int;
        if n == 0 || b.len() < 4 + n + 16 {
            0
        } else {
            1 + count_frames(b.subrange(4 + n + 16, b.len() as int))
        }
    }
}

/// The first frame of sealed chunks: its length prefix, its
/// ciphertext-and-tag, and the frames after it.
pub proof fn lemma_first_frame(alg: AeadAlgorithm, key: Seq<u8>, base: Seq<u8>, i: int, s: Seq<Seq<u8>>)
    requires
        s.len() > 0,
        chunk_len_ok(s[0]),
        chunk_seal(alg, key, base, i, s[0]).len() == s[0].len() + 16,
    ensures
        ({
            let b = sealed_frames(alg, key, base, i, s);
            let n = s[0].len() as int;
            &&& b.len() >= 4 + n + 16
            &&& u32_from_be(b.subrange(0, 4)) == n
            &&& b.subrange(4, 4 + n + 16) == chunk_seal(alg, key, base, i, s[0])
            &&& b.subrange(4 + n + 16, b.len() as int) == sealed_frames(alg, key, base, i + 1, s.drop_first())
        }),
{
    reveal_with_fuel(sealed_frames, 1);
    let ct = chunk_seal(alg, key, base, i, s[0]);
    let n = s[0].len() as int;
    let b = sealed_frames(alg, key, base, i, s);
    let rest = sealed_frames(alg, key, base, i + 1, s.drop_first());
    lemma_u32_be_round_trip(n as u32);
    assert(b == u32_be(n as u32) + ct + rest);
    assert(b.subrange(0, 4) =~= u32_be(n as u32));
    assert(b.subrange(4, 4 + n + 16) =~= ct);
    assert(b.subrange(4 + n + 16, b.len() as int) =~= rest);
}

/// Joining pieces with one more at the end appends that piece.
pub proof fn lemma_flatten_push(s: Seq<Seq<u8>>, x: Seq<u8>)
    ensures
        flatten(s.push(x)) == flatten(s) + x,
    decreases s.len(),
{
    if s.len() == 0 {
        assert(s.push(x).drop_first() =~= Seq::<Seq<u8>>::empty());
        assert(flatten(s.push(x).drop_first()) == Seq::<u8>::empty());
        assert(flatten(s.push(x)) =~= x);
    } else {
        assert(s.push(x).drop_first() =~= s.drop_first().push(x));
        lemma_flatten_push(s.drop_first(), x);
        assert(flatten(s.push(x)) =~= flatten(s) + x);
    }
}

/// One frame of `open_frames`: a frame that parses and authenticates is
/// followed by the frames after it.
pub proof fn lemma_open_frames_step(alg: AeadAlgorithm, key: Seq<u8>, base: Seq<u8>, i: int, b: Seq<u8>, n: int, p: Seq<u8>)
    requires
        b.len() >= 4,
        n == u32_from_be(b.subrange(0, 4)) as int,
        n != 0,
        b.len() >= 4 + n + 16,
        chunk_open(alg, key, base, i, b.subrange(4, 4 + n + 16)) == Some(p),
    ensures
        open_frames(alg, key, base, i, b) == (match open_frames(alg, key, base, i + 1, b.subrange(4 + n + 16, b.len() as int)) {
            Ok(rest) => Ok(p + rest),
            Err(e) => Err(e),
        }),
        count_frames(b) == 1 + count_frames(b.subrange(4 + n + 16, b.len() as int)),
{
    reveal_with_fuel(open_frames, 1);
    reveal_with_fuel(count_frames, 1);
}

/// Where `open_frames` stops: an empty input ends cleanly; a short or
/// zero-length frame, or one that does not authenticate, fails.
pub proof fn lemma_open_frames_stop(alg: AeadAlgorithm, key: Seq<u8>, base: Seq<u8>, i: int, b: Seq<u8>)
    ensures
        b.len() == 0 ==> open_frames(alg, key, base, i, b) == Ok::<Seq<u8>, SealVaultError>(Seq::empty()) && count_frames(b) == 0,
        0 < b.len() < 4 ==> open_frames(alg, key, base, i, b) == Err::<Seq<u8>, SealVaultError>(SealVaultError::CorruptedStream),
        b.len() >= 4 && (u32_from_be(b.subrange(0, 4)) == 0 || b.len() < 4 + u32_from_be(b.subrange(0, 4)) + 16)
            ==> open_frames(alg, key, base, i, b) == Err::<Seq<u8>, SealVaultError>(SealVaultError::CorruptedStream),
        b.len() >= 4 && u32_from_be(b.subrange(0, 4)) != 0 && b.len() >= 4 + u32_from_be(b.subrange(0, 4)) + 16
            && chunk_open(alg, key, base, i, b.subrange(4, 4 + u32_from_be(b.subrange(0, 4)) + 16)) is None
            ==> open_frames(alg, key, base, i, b) == Err::<Seq<u8>, SealVaultError>(SealVaultError::InvalidPasswordOrFile),
{
    reveal_with_fuel(open_frames, 1);
    reveal_with_fuel(count_frames, 1);
}

/// Sealed frames are empty exactly when there are no chunks.
pub proof fn lemma_sealed_frames_empty(alg: AeadAlgorithm, key: Seq<u8>, base: Seq<u8>, i: int, s: Seq<Seq<u8>>)
    ensures
        s.len() == 0 ==> sealed_frames(alg, key, base, i, s) == Seq::<u8>::empty(),
        s.len() > 0 ==> sealed_frames(alg, key, base, i, s).len() >= 4,
{
    reveal_with_fuel(sealed_frames, 1);
}

/// Carries the result of the frames read so far across one more frame.
pub proof fn lemma_open_frames_carry(
    whole: Result<Seq<u8>, SealVaultError>,
    here: Result<Seq<u8>, SealVaultError>,
    next: Result<Seq<u8>, SealVaultError>,
    out: Seq<u8>,
    p: Seq<u8>,
)
    requires
        whole == (match here {
            Ok(rest) => Ok(out + rest),
            Err(e) => Err(e),
        }),
        here == (match next {
            Ok(rest) => Ok(p + rest),
            Err(e) => Err(e),
        }),
    ensures
        whole == (match next {
            Ok(rest) => Ok((out + p) + rest),
            Err(e) => Err::<Seq<u8>, SealVaultError>(e),
        }),
{
    match next {
        Ok(rest) => {
            assert((out + p) + rest =~= out + (p + rest));
        },
        Err(e) => {},
    }
}

/// Cutting a plaintext into chunks gives valid chunk plaintexts that join
/// back into it.
pub proof fn lemma_chunks_of(pt: Seq<u8>, size: nat)
    requires
        0 < size <= u32::MAX,
    ensures
        chunks_valid(chunks_of(pt, size)),
        flatten(chunks_of(pt, size)) == pt,
    decreases pt.len(),
{
    let c = chunks_of(pt, size);
    if pt.len() == 0 {
        assert(flatten(c) =~= pt);
    } else if pt.len() <= size {
        assert(c.drop_first() =~= Seq::<Seq<u8>>::empty());
        assert(flatten(c.drop_first()) == Seq::<u8>::empty());
        assert(flatten(c) =~= pt);
    } else {
        let tail = pt.subrange(size as int, pt.len() as int);
        lemma_chunks_of(tail, size);
        assert(c.drop_first() =~= chunks_of(tail, size));
        assert(pt =~= pt.subrange(0, size as int) + tail);
        assert forall|i: int| 0 <= i < c.len() implies chunk_len_ok(#[trigger] c[i]) by {
            if i > 0 {
                assert(c[i] == chunks_of(tail, size)[i - 1]);
            }
        }
    }
}

/// In sealed frames read from position `k` on, the next frame is the one of
/// chunk `k`.
pub proof fn lemma_next_frame_of_match(alg: AeadAlgorithm, key: Seq<u8>, base: Seq<u8>, idx0: int, k: int, cs: Seq<Seq<u8>>, rest: Seq<u8>)
    requires
        chunks_valid(cs),
        seals_sized(alg, key, base, idx0, cs),
        0 <= k <= cs.len(),
        rest.len() > 0,
        rest == sealed_frames(alg, key, base, idx0 + k, cs.subrange(k, cs.len() as int)),
    ensures
        k < cs.len(),
        rest.len() >= 4 + cs[k].len() as int + 16,
        u32_from_be(rest.subrange(0, 4)) == cs[k].len(),
        rest.subrange(4, 4 + cs[k].len() as int + 16) == chunk_seal(alg, key, base, idx0 + k, cs[k]),
        rest.subrange(4 + cs[k].len() as int + 16, rest.len() as int) == sealed_frames(alg, key, base, idx0 + k + 1, cs.subrange(k + 1, cs.len() as int)),
{
    let sub = cs.subrange(k, cs.len() as int);
    lemma_sealed_frames_empty(alg, key, base, idx0 + k, sub);
    assert(sub[0] == cs[k]);
    assert(chunk_len_ok(cs[k]));
    assert(chunk_seal(alg, key, base, idx0 + k, cs[k]).len() == cs[k].len() + 16);
    lemma_first_frame(alg, key, base, idx0 + k, sub);
    assert(sub.drop_first() =~= cs.subrange(k + 1, cs.len() as int));
}

/// Each chunk is bound to its position: two different positions in one
/// stream get different nonces and different associated data, so a frame
/// moved to another position is opened under parameters it was not sealed
/// with.
pub proof fn lemma_positions_bound(base: Seq<u8>, i: u64, j: u64)
    requires
        base.len() == 24,
        i != j,
    ensures
        xchacha_nonce(base, i) != xchacha_nonce(base, j),
        gcm_nonce(base, i) != gcm_nonce(base, j),
        u64_be(i) != u64_be(j),
{
    lemma_xchacha_nonce_unique(base, i, j);
    lemma_gcm_nonce_unique(base, i, j);
    if u64_be(i) == u64_be(j) {
        lemma_u64_be_injective(i, j);
    }
}

/// The AEAD cipher of one stream: the algorithm and the derived key.
pub struct CipherImpl {
    algorithm: AeadAlgorithm,
    key: SecretKey,
}

impl CipherImpl {
    pub closed spec fn algorithm(&self) -> AeadAlgorithm {
        self.algorithm
    }

    pub closed spec fn key(&self) -> Seq<u8> {
        self.key@
    }

    pub fn new(algorithm: AeadAlgorithm, key: &[u8; 32]) -> (r: CipherImpl)
        ensures
            r.algorithm() == algorithm,
            r.key() == key@,
    {
        CipherImpl { algorithm, key: SecretKey::from_bytes(*key) }
    }

    /// Overwrites the key with zeros.
    pub fn wipe(&mut self)
        ensures
            final(self).algorithm() == old(self).algorithm(),
            final(self).key() == Seq::new(32, |_i: int| 0u8),
    {
        self.key.wipe();
    }

    /// Seals one chunk as chunk `chunk_index`, under its derived nonce and
    /// with the big-endian index as associated data.
    pub fn encrypt(&self, base_nonce: &[u8; 24], chunk_index: u64, plaintext: &[u8]) -> (r: Vec<u8>)
        requires
            chunk_len_ok(plaintext@),
        ensures
            r@ == chunk_seal(self.algorithm(), self.key(), base_nonce@, chunk_index as int, plaintext@),
            r@.len() == plaintext@.len() + 16,
    {
        let aad = encode_u64_be(chunk_index);
        let sealed = match self.algorithm {
            AeadAlgorithm::XChaCha20Poly1305 => xchacha20_poly1305::encrypt_chunk(self.key.bytes(), base_nonce, chunk_index, plaintext, &aad),
            AeadAlgorithm::Aes256Gcm => aes_256_gcm::encrypt_chunk(self.key.bytes(), base_nonce, chunk_index, plaintext, &aad),
        };
        match sealed {
            Ok(c) => c,
            Err(_) => {
                proof {
                    assert(false);
                }
                Vec::new()
            },
        }
    }

    /// Opens one ciphertext-and-tag as chunk `chunk_index`. A ciphertext that
    /// sealing some valid plaintext as that chunk produced opens to it.
    pub fn decrypt(&self, base_nonce: &[u8; 24], chunk_index: u64, ciphertext: &[u8]) -> (r: Result<Vec<u8>, SealVaultError>)
        ensures
            match chunk_open(self.algorithm(), self.key(), base_nonce@, chunk_index as int, ciphertext@) {
                Some(p) => r is Ok && r->Ok_0@ == p,
                None => r == Err::<Vec<u8>, SealVaultError>(SealVaultError::InvalidPasswordOrFile),
            },
            forall|m: Seq<u8>|
                chunk_len_ok(m) && ciphertext@ == #[trigger] chunk_seal(self.algorithm(), self.key(), base_nonce@, chunk_index as int, m)
                    ==> chunk_open(self.algorithm(), self.key(), base_nonce@, chunk_index as int, ciphertext@) == Some(m),
    {
        let aad = encode_u64_be(chunk_index);
        match self.algorithm {
            AeadAlgorithm::XChaCha20Poly1305 => xchacha20_poly1305::decrypt_chunk(self.key.bytes(), base_nonce, chunk_index, ciphertext, &aad),
            AeadAlgorithm::Aes256Gcm => aes_256_gcm::decrypt_chunk(self.key.bytes(), base_nonce, chunk_index, ciphertext, &aad),
        }
    }
}

/// Seals a plaintext stream chunk by chunk. The chunk index starts at 0,
/// grows by one per chunk and is never reused.
pub struct StreamEncryptor {
    cipher: CipherImpl,
    base_nonce: [u8; 24],
    chunk_index: u64,
    chunk_size: usize,
}

impl StreamEncryptor {
    pub closed spec fn algorithm(&self) -> AeadAlgorithm {
        self.cipher.algorithm()
    }

    pub closed spec fn key(&self) -> Seq<u8> {
        self.cipher.key()
    }

    pub closed spec fn base_nonce(&self) -> Seq<u8> {
        self.base_nonce@
    }

    pub closed spec fn index(&self) -> u64 {
        self.chunk_index
    }

    pub closed spec fn chunk_size(&self) -> nat {
        self.chunk_size as nat
    }

    /// The chunk size is nonzero and fits the header's 32-bit field.
    pub open spec fn wf(&self) -> bool {
        0 < self.chunk_size() <= u32::MAX
    }

    pub fn new(key: &[u8; 32], base_nonce: [u8; 24], chunk_size: usize, algorithm: AeadAlgorithm) -> (r: StreamEncryptor)
        requires
            0 < chunk_size <= u32::MAX,
        ensures
            r.wf(),
            r.algorithm() == algorithm,
            r.key() == key@,
            r.base_nonce() == base_nonce@,
            r.index() == 0,
            r.chunk_size() == chunk_size,
    {
        StreamEncryptor { cipher: CipherImpl::new(algorithm, key), base_nonce, chunk_index: 0, chunk_size }
    }

    /// The index the next chunk will be sealed as.
    pub fn chunk_index(&self) -> (r: u64)
        ensures
            r == self.index(),
    {
        self.chunk_index
    }

    /// Seals `plaintext` in pieces of the chunk size, continuing the chunk
    /// numbering, and returns their frames. An empty plaintext gives no frame.
    pub fn encrypt(&mut self, plaintext: &[u8]) -> (r: Vec<u8>)
        requires
            old(self).wf(),
            old(self).index() + plaintext@.len() <= u64::MAX,
        ensures
            final(self).wf(),
            final(self).algorithm() == old(self).algorithm(),
            final(self).key() == old(self).key(),
            final(self).base_nonce() == old(self).base_nonce(),
            final(self).chunk_size() == old(self).chunk_size(),
            final(self).index() == old(self).index() + chunks_of(plaintext@, old(self).chunk_size()).len(),
            r@ == sealed_frames(old(self).algorithm(), old(self).key(), old(self).base_nonce(), old(self).index() as int,
                chunks_of(plaintext@, old(self).chunk_size())),
            seals_sized(old(self).algorithm(), old(self).key(), old(self).base_nonce(), old(self).index() as int,
                chunks_of(plaintext@, old(self).chunk_size())),
    {
        let ghost alg = self.algorithm();
        let ghost key = self.key();
        let ghost base = self.base_nonce();
        let ghost cs = self.chunk_size();
        let ghost idx0 = self.index() as int;
        let ghost pt = plaintext@;
        let mut out: Vec<u8> = Vec::new();
        let mut pos: usize = 0;
        let len = plaintext.len();
        let ghost mut done: Seq<Seq<u8>> = Seq::empty();
        assert(pt.subrange(0, len as int) =~= pt);
        assert(done + chunks_of(pt, cs) =~= chunks_of(pt, cs));
        while pos < len
            invariant
                alg == old(self).algorithm(),
                key == old(self).key(),
                base == old(self).base_nonce(),
                idx0 == old(self).index(),
                cs == old(self).chunk_size(),
                self.index() == idx0 + done.len(),
                done + chunks_of(pt.subrange(pos as int, len as int), cs) == chunks_of(pt, cs),
                seals_sized(alg, key, base, idx0, done),
                self.wf(),
                self.algorithm() == alg,
                self.key() == key,
                self.base_nonce() == base,
                self.chunk_size() == cs,
                len == pt.len(),
                plaintext@ == pt,
                pos <= len,
                self.index() + (len - pos) <= u64::MAX,
                self.index() + chunks_of(pt.subrange(pos as int, len as int), cs).len() == idx0 + chunks_of(pt, cs).len(),
                out@ + sealed_frames(alg, key, base, self.index() as int, chunks_of(pt.subrange(pos as int, len as int), cs))
                    == sealed_frames(alg, key, base, idx0, chunks_of(pt, cs)),
            decreases len - pos,
        {
            let ghost rest = pt.subrange(pos as int, len as int);
            let take: usize = if len - pos < self.chunk_size { len - pos } else { self.chunk_size };
            let msg = copy_range(plaintext, pos, pos + take);
            let ct = self.cipher.encrypt(&self.base_nonce, self.chunk_index, &msg);
            let prefix = encode_u32_be(take as u32);
            let ghost before = out@;
            append_bytes(&mut out, &prefix);
            append_bytes(&mut out, &ct);
            proof {
                reveal_with_fuel(sealed_frames, 1);
                let i = self.index() as int;
                let tail = pt.subrange(pos + take, len as int);
                assert(msg@ =~= rest.subrange(0, take as int));
                assert(rest.subrange(take as int, rest.len() as int) =~= tail);
                let chunks = chunks_of(rest, cs);
                if rest.len() <= cs {
                    assert(chunks == seq![rest]);
                    assert(msg@ =~= rest);
                    assert(tail.len() == 0);
                    assert(chunks_of(tail, cs) == Seq::<Seq<u8>>::empty());
                    assert(chunks.drop_first() =~= chunks_of(tail, cs));
                } else {
                    assert(chunks == seq![rest.subrange(0, cs as int)] + chunks_of(tail, cs));
                    assert(chunks.drop_first() =~= chunks_of(tail, cs));
                }
                assert(chunks[0] == msg@);
                assert(sealed_frames(alg, key, base, i, chunks) == frame(chunk_seal(alg, key, base, i, msg@))
                    + sealed_frames(alg, key, base, i + 1, chunks_of(tail, cs)));
                assert(frame(ct@) =~= prefix@ + ct@);
                assert(out@ =~= before + frame(ct@));
                assert(done.push(msg@) + chunks_of(tail, cs) =~= done + chunks);
                assert forall|j: int| 0 <= j < done.push(msg@).len() implies chunk_seal(alg, key, base, idx0 + j, #[trigger] done.push(msg@)[j]).len()
                    == done.push(msg@)[j].len() + 16 by {
                    if j < done.len() {
                        assert(done.push(msg@)[j] == done[j]);
                    }
                }
                done = done.push(msg@);
            }
            self.chunk_index = self.chunk_index + 1;
            pos = pos + take;
        }
        proof {
            assert(pt.subrange(len as int, len as int) =~= Seq::<u8>::empty());
            assert(out@ =~= out@ + Seq::<u8>::empty());
            assert(done =~= done + chunks_of(pt.subrange(len as int, len as int), cs));
            lemma_sealed_frames_empty(alg, key, base, self.index() as int, chunks_of(pt.subrange(len as int, len as int), cs));
        }
        out
    }

    /// Ends the stream: the key is overwritten with zeros.
    pub fn finish(&mut self)
        ensures
            final(self).key() == Seq::new(32, |_i: int| 0u8),
    {
        self.cipher.wipe();
    }
}

/// Reads the length prefix of a frame: the body length, which must not be 0.
pub fn frame_body_len(prefix: &[u8]) -> (r: Result<usize, SealVaultError>)
    requires
        prefix@.len() == 4,
    ensures
        u32_from_be(prefix@) == 0 ==> r == Err::<usize, SealVaultError>(SealVaultError::CorruptedStream),
        u32_from_be(prefix@) != 0 ==> r == Ok::<usize, SealVaultError>(u32_from_be(prefix@) as usize),
{
    let n = decode_u32_be(prefix);
    if n == 0 {
        Err(SealVaultError::CorruptedStream)
    } else {
        Ok(n as usize)
    }
}

/// Opens a stream of frames, checking each chunk against its position. Once
/// a chunk fails, the decryptor has failed for good and its key is wiped.
pub struct StreamDecryptor {
    cipher: CipherImpl,
    base_nonce: [u8; 24],
    chunk_index: u64,
    failed: bool,
}

impl StreamDecryptor {
    pub closed spec fn algorithm(&self) -> AeadAlgorithm {
        self.cipher.algorithm()
    }

    pub closed spec fn key(&self) -> Seq<u8> {
        self.cipher.key()
    }

    pub closed spec fn base_nonce(&self) -> Seq<u8> {
        self.base_nonce@
    }

    pub closed spec fn index(&self) -> u64 {
        self.chunk_index
    }

    pub closed spec fn has_failed(&self) -> bool {
        self.failed
    }

    pub fn new(key: &[u8; 32], base_nonce: [u8; 24], algorithm: AeadAlgorithm) -> (r: StreamDecryptor)
        ensures
            r.algorithm() == algorithm,
            r.key() == key@,
            r.base_nonce() == base_nonce@,
            r.index() == 0,
            !r.has_failed(),
    {
        StreamDecryptor { cipher: CipherImpl::new(algorithm, key), base_nonce, chunk_index: 0, failed: false }
    }

    /// The index the next frame will be opened as.
    pub fn chunk_index(&self) -> (r: u64)
        ensures
            r == self.index(),
    {
        self.chunk_index
    }

    /// Whether a chunk has failed; a failed decryptor takes no more input.
    pub fn is_failed(&self) -> (r: bool)
        ensures
            r == self.has_failed(),
    {
        self.failed
    }

    fn fail(&mut self, e: SealVaultError) -> (r: Result<Vec<u8>, SealVaultError>)
        ensures
            r == Err::<Vec<u8>, SealVaultError>(e),
            final(self).has_failed(),
            final(self).key() == Seq::new(32, |_i: int| 0u8),
            final(self).algorithm() == old(self).algorithm(),
            final(self).base_nonce() == old(self).base_nonce(),
            final(self).index() == old(self).index(),
    {
        self.failed = true;
        self.cipher.wipe();
        Err(e)
    }

    /// Opens the frames in `input`, numbering them on from the frames opened
    /// before. Plaintext is returned only when every frame authenticates; the
    /// frames of valid chunks sealed at these positions give the chunks back.
    #[verifier::rlimit(100)]
    pub fn decrypt(&mut self, input: &[u8]) -> (r: Result<Vec<u8>, SealVaultError>)
        requires
            !old(self).has_failed(),
            old(self).index() + input@.len() <= u64::MAX,
        ensures
            final(self).algorithm() == old(self).algorithm(),
            final(self).base_nonce() == old(self).base_nonce(),
            match open_frames(old(self).algorithm(), old(self).key(), old(self).base_nonce(), old(self).index() as int, input@) {
                Ok(p) => {
                    &&& r is Ok
                    &&& r->Ok_0@ == p
                    &&& !final(self).has_failed()
                    &&& final(self).key() == old(self).key()
                    &&& final(self).index() == old(self).index() + count_frames(input@)
                },
                Err(e) => {
                    &&& r == Err::<Vec<u8>, SealVaultError>(e)
                    &&& final(self).has_failed()
                    &&& final(self).key() == Seq::new(32, |_i: int| 0u8)
                },
            },
            forall|cs: Seq<Seq<u8>>|
                chunks_valid(cs) && seals_sized(old(self).algorithm(), old(self).key(), old(self).base_nonce(), old(self).index() as int, cs)
                    && input@ == #[trigger] sealed_frames(old(self).algorithm(), old(self).key(), old(self).base_nonce(), old(self).index() as int, cs)
                    ==> (r is Ok && r->Ok_0@ == flatten(cs) && final(self).index() == old(self).index() + cs.len()),
    {
        let ghost alg = self.algorithm();
        let ghost key = self.key();
        let ghost base = self.base_nonce();
        let ghost idx0 = self.index() as int;
        let ghost inp = input@;
        let len = input.len();
        let mut out: Vec<u8> = Vec::new();
        let mut pos: usize = 0;
        assert(inp.subrange(0, len as int) =~= inp);
        proof {
            assert forall|cs: Seq<Seq<u8>>|
                chunks_valid(cs) && seals_sized(alg, key, base, idx0, cs) && inp == #[trigger] sealed_frames(alg, key, base, idx0, cs)
                implies (inp.subrange(0, len as int) == sealed_frames(alg, key, base, idx0, cs.subrange(0, cs.len() as int))
                    && out@ == flatten(cs.subrange(0, 0))) by {
                assert(cs.subrange(0, cs.len() as int) =~= cs);
                assert(cs.subrange(0, 0) =~= Seq::<Seq<u8>>::empty());
                assert(out@ =~= Seq::<u8>::empty());
            }
        }
        while pos < len
            invariant
                alg == old(self).algorithm(),
                key == old(self).key(),
                base == old(self).base_nonce(),
                idx0 == old(self).index(),
                !self.has_failed(),
                self.algorithm() == alg,
                self.key() == key,
                self.base_nonce() == base,
                len == inp.len(),
                input@ == inp,
                pos <= len,
                idx0 <= self.index(),
                self.index() + (len - pos) <= u64::MAX,
                open_frames(alg, key, base, idx0, inp) == (match open_frames(alg, key, base, self.index() as int, inp.subrange(pos as int, len as int)) {
                    Ok(rest) => Ok(out@ + rest),
                    Err(e) => Err(e),
                }),
                idx0 + count_frames(inp) == self.index() + count_frames(inp.subrange(pos as int, len as int)),
                forall|cs: Seq<Seq<u8>>|
                    chunks_valid(cs) && seals_sized(alg, key, base, idx0, cs) && inp == #[trigger] sealed_frames(alg, key, base, idx0, cs)
                        ==> ({
                            let k = self.index() - idx0;
                            &&& k <= cs.len()
                            &&& inp.subrange(pos as int, len as int) == sealed_frames(alg, key, base, self.index() as int, cs.subrange(k, cs.len() as int))
                            &&& out@ == flatten(cs.subrange(0, k))
                        }),
            decreases len - pos,
        {
            let ghost rest = inp.subrange(pos as int, len as int);
            let ghost i = self.index() as int;
            let ghost k = i - idx0;
            proof {
                lemma_open_frames_stop(alg, key, base, i, rest);
                assert forall|cs: Seq<Seq<u8>>|
                    chunks_valid(cs) && seals_sized(alg, key, base, idx0, cs) && inp == #[trigger] sealed_frames(alg, key, base, idx0, cs)
                    implies ({
                        let sub = cs.subrange(k, cs.len() as int);
                        &&& k < cs.len()
                        &&& rest.len() >= 4 + cs[k].len() + 16
                        &&& u32_from_be(rest.subrange(0, 4)) == cs[k].len()
                        &&& rest.subrange(4, 4 + cs[k].len() as int + 16) == chunk_seal(alg, key, base, i, cs[k])
                        &&& rest.subrange(4 + cs[k].len() as int + 16, rest.len() as int) == sealed_frames(alg, key, base, i + 1, cs.subrange(k + 1, cs.len() as int))
                    }) by {
                    lemma_next_frame_of_match(alg, key, base, idx0, k, cs, rest);
                }
            }
            if len - pos < 4 {
                return self.fail(SealVaultError::CorruptedStream);
            }
            let prefix = copy_range(input, pos, pos + 4);
            assert(prefix@ == rest.subrange(0, 4));
            let n = match frame_body_len(&prefix) {
                Ok(n) => n,
                Err(e) => {
                    return self.fail(e);
                },
            };
            if len - pos - 4 < 16 || len - pos - 20 < n {
                return self.fail(SealVaultError::CorruptedStream);
            }
            let end = pos + 20 + n;
            let ct = copy_range(input, pos + 4, end);
            assert(ct@ =~= rest.subrange(4, 4 + n + 16));
            let opened = self.cipher.decrypt(&self.base_nonce, self.chunk_index, &ct);
            let p = match opened {
                Ok(p) => p,
                Err(e) => {
                    proof {
                        assert forall|cs: Seq<Seq<u8>>|
                            !(chunks_valid(cs) && seals_sized(alg, key, base, idx0, cs) && inp == #[trigger] sealed_frames(alg, key, base, idx0, cs)) by {
                            if chunks_valid(cs) && seals_sized(alg, key, base, idx0, cs) && inp == sealed_frames(alg, key, base, idx0, cs) {
                                assert(chunk_len_ok(cs[k]));
                                assert(ct@ == chunk_seal(alg, key, base, i, cs[k]));
                            }
                        }
                    }
                    return self.fail(e);
                },
            };
            let ghost after = inp.subrange(end as int, len as int);
            assert(rest.subrange(4 + n + 16, rest.len() as int) =~= after);
            let ghost before = out@;
            append_bytes(&mut out, &p);
            proof {
                lemma_open_frames_step(alg, key, base, i, rest, n as int, p@);
                lemma_open_frames_carry(
                    open_frames(alg, key, base, idx0, inp),
                    open_frames(alg, key, base, i, rest),
                    open_frames(alg, key, base, i + 1, after),
                    before,
                    p@,
                );
                assert forall|cs: Seq<Seq<u8>>|
                    chunks_valid(cs) && seals_sized(alg, key, base, idx0, cs) && inp == #[trigger] sealed_frames(alg, key, base, idx0, cs)
                    implies ({
                        &&& k + 1 <= cs.len()
                        &&& after == sealed_frames(alg, key, base, i + 1, cs.subrange(k + 1, cs.len() as int))
                        &&& out@ == flatten(cs.subrange(0, k + 1))
                    }) by {
                    assert(chunk_len_ok(cs[k]));
                    assert(ct@ == chunk_seal(alg, key, base, i, cs[k]));
                    assert(p@ == cs[k]);
                    assert(cs.subrange(0, k + 1) =~= cs.subrange(0, k).push(cs[k]));
                    lemma_flatten_push(cs.subrange(0, k), cs[k]);
                }
            }
            self.chunk_index = self.chunk_index + 1;
            pos = end;
        }
        proof {
            assert(inp.subrange(len as int, len as int) =~= Seq::<u8>::empty());
            lemma_open_frames_stop(alg, key, base, self.index() as int, inp.subrange(len as int, len as int));
            assert(out@ =~= out@ + Seq::<u8>::empty());
            assert forall|cs: Seq<Seq<u8>>|
                chunks_valid(cs) && seals_sized(alg, key, base, idx0, cs) && inp == #[trigger] sealed_frames(alg, key, base, idx0, cs)
                implies (out@ == flatten(cs) && self.index() == idx0 + cs.len()) by {
                let k = self.index() - idx0;
                let sub = cs.subrange(k, cs.len() as int);
                lemma_sealed_frames_empty(alg, key, base, self.index() as int, sub);
                assert(cs.subrange(0, k) =~= cs);
            }
        }
        Ok(out)
    }

    /// Ends the stream: the key is overwritten with zeros.
    pub fn finish(&mut self)
        ensures
            final(self).key() == Seq::new(32, |_i: int| 0u8),
    {
        self.cipher.wipe();
    }
}

} // verus!
