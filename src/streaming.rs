//! Streaming AEAD with AES-GCM and per-stream keys derived by HKDF.
//!
//! A stream is a header (its length byte, a salt and a nonce prefix)
//! followed by segments, each sealed under the stream key with the nonce
//! `nonce_prefix || be32(counter) || last_flag`. The first segment holds
//! fewer plaintext bytes, so that header, offset and first segment fill one
//! ciphertext segment.
use vstd::prelude::*;
use vstd::slice::{slice_subrange, slice_to_vec};
use crate::crypto::{
    aes128_gcm_open, aes128_gcm_open_of, aes128_gcm_seal, aes128_gcm_seal_of, aes256_gcm_open,
    aes256_gcm_open_of, aes256_gcm_seal, aes256_gcm_seal_of, hkdf_sha1, hkdf_sha1_of, hkdf_sha256,
    hkdf_sha256_of, hkdf_sha512, hkdf_sha512_of, hkdf_sha224, hkdf_sha224_of, hkdf_sha384,
    hkdf_sha384_of, random_bytes, GCM_MAX_PLAINTEXT,
};
use crate::error::{ErrorKind, TinkError};
use crate::proto::HashType;

verus! {

/// The size of the nonces used for GCM.
pub const AES_GCM_HKDF_NONCE_SIZE_IN_BYTES: usize = 12;

/// The size of the randomly generated nonce prefix.
pub const AES_GCM_HKDF_NONCE_PREFIX_SIZE_IN_BYTES: usize = 7;

/// The size of the tags of each ciphertext segment.
pub const AES_GCM_HKDF_TAG_SIZE_IN_BYTES: usize = 16;

/// The parameters of an [`AesGcmHkdf`], as mathematical values.
pub ghost struct StreamParams {
    pub main_key: Seq<u8>,
    pub hkdf_alg: HashType,
    pub key_size: nat,
    pub ciphertext_segment_size: nat,
    pub first_ciphertext_segment_offset: nat,
    pub plaintext_segment_size: nat,
}

/// Length of the stream header for a derived key of `key_size` bytes.
pub open spec fn header_len(key_size: nat) -> nat {
    1 + key_size + 7
}

impl StreamParams {
    /// Plaintext bytes that the first segment holds.
    pub open spec fn first_plaintext_capacity(self) -> nat {
        (self.plaintext_segment_size - self.first_ciphertext_segment_offset) as nat
    }

    /// Ciphertext bytes of the first segment.
    pub open spec fn first_ciphertext_capacity(self) -> nat {
        (self.ciphertext_segment_size - self.first_ciphertext_segment_offset) as nat
    }
}

/// The parameters that [`AesGcmHkdf::new`] accepts.
pub open spec fn params_ok(
    main_key_len: nat,
    key_size: nat,
    ciphertext_segment_size: nat,
    first_segment_offset: nat,
) -> bool {
    &&& main_key_len >= 16
    &&& main_key_len >= key_size
    &&& (key_size == 16 || key_size == 32)
    &&& ciphertext_segment_size > first_segment_offset + header_len(key_size) + 16
}

/// HKDF under the chosen hash; `None` for an unknown hash.
pub open spec fn hkdf_of(alg: HashType, ikm: Seq<u8>, salt: Seq<u8>, info: Seq<u8>, len: nat) -> Option<Seq<u8>> {
    match alg {
        HashType::Sha1 => Some(hkdf_sha1_of(ikm, salt, info, len)),
        HashType::Sha256 => Some(hkdf_sha256_of(ikm, salt, info, len)),
        HashType::Sha512 => Some(hkdf_sha512_of(ikm, salt, info, len)),
        HashType::Sha224 => Some(hkdf_sha224_of(ikm, salt, info, len)),
        HashType::Sha384 => Some(hkdf_sha384_of(ikm, salt, info, len)),
        HashType::UnknownHash => None,
    }
}

/// AES-GCM sealing of one segment under a 16- or 32-byte key.
pub open spec fn gcm_seal(key: Seq<u8>, nonce: Seq<u8>, pt: Seq<u8>) -> Option<Seq<u8>> {
    if pt.len() > GCM_MAX_PLAINTEXT {
        None
    } else if key.len() == 16 {
        Some(aes128_gcm_seal_of(key, nonce, pt))
    } else {
        Some(aes256_gcm_seal_of(key, nonce, pt))
    }
}

/// AES-GCM opening of one segment under a 16- or 32-byte key.
pub open spec fn gcm_open(key: Seq<u8>, nonce: Seq<u8>, ct: Seq<u8>) -> Option<Seq<u8>> {
    if key.len() == 16 {
        aes128_gcm_open_of(key, nonce, ct)
    } else {
        aes256_gcm_open_of(key, nonce, ct)
    }
}

/// Big-endian bytes of a 32-bit counter.
pub open spec fn be32(i: nat) -> Seq<u8> {
    seq![(i / 0x1000000) as u8, ((i / 0x10000) % 256) as u8, ((i / 0x100) % 256) as u8, (i % 256) as u8]
}

/// The nonce of segment `i`.
pub open spec fn segment_nonce(nonce_prefix: Seq<u8>, i: nat, last: bool) -> Seq<u8> {
    nonce_prefix + be32(i) + seq![if last { 1u8 } else { 0u8 }]
}

/// The stream header.
pub open spec fn header(key_size: nat, salt: Seq<u8>, nonce_prefix: Seq<u8>) -> Seq<u8> {
    seq![header_len(key_size) as u8] + salt + nonce_prefix
}

/// The sealed segments of `rest`, numbered from `i`; the current segment
/// holds `cap` bytes and later ones `c`. `None` when the counter would pass
/// 32 bits or a segment cannot be sealed.
#[verifier::opaque]
pub open spec fn seal_segments(key: Seq<u8>, np: Seq<u8>, rest: Seq<u8>, cap: nat, c: nat, i: nat) -> Option<Seq<u8>>
    decreases rest.len(),
{
    if i > u32::MAX {
        None
    } else if rest.len() <= cap {
        gcm_seal(key, segment_nonce(np, i, true), rest)
    } else if cap == 0 {
        None
    } else {
        match gcm_seal(key, segment_nonce(np, i, false), rest.take(cap as int)) {
            None => None,
            Some(s) => match seal_segments(key, np, rest.skip(cap as int), c, c, i + 1) {
                None => None,
                Some(t) => Some(s + t),
            },
        }
    }
}

/// The opened segments of `rest`, numbered from `i`; the current ciphertext
/// segment is `cap` bytes and later ones `c`. `None` when a segment does not
/// authenticate or the counter would pass 32 bits.
#[verifier::opaque]
pub open spec fn open_segments(key: Seq<u8>, np: Seq<u8>, rest: Seq<u8>, cap: nat, c: nat, i: nat) -> Option<Seq<u8>>
    decreases rest.len(),
{
    if i > u32::MAX {
        None
    } else if rest.len() <= cap {
        gcm_open(key, segment_nonce(np, i, true), rest)
    } else if cap == 0 {
        None
    } else {
        match gcm_open(key, segment_nonce(np, i, false), rest.take(cap as int)) {
            None => None,
            Some(s) => match open_segments(key, np, rest.skip(cap as int), c, c, i + 1) {
                None => None,
                Some(t) => Some(s + t),
            },
        }
    }
}

/// `a` in front of an optional sequence.
pub open spec fn prepend(a: Seq<u8>, o: Option<Seq<u8>>) -> Option<Seq<u8>> {
    match o {
        None => None,
        Some(t) => Some(a + t),
    }
}

proof fn lemma_seal_last(key: Seq<u8>, np: Seq<u8>, rest: Seq<u8>, cap: nat, c: nat, i: nat)
    requires
        i <= u32::MAX,
        rest.len() <= cap,
    ensures
        seal_segments(key, np, rest, cap, c, i) == gcm_seal(key, segment_nonce(np, i, true), rest),
{
    reveal(seal_segments);
}

proof fn lemma_seal_step(key: Seq<u8>, np: Seq<u8>, rest: Seq<u8>, cap: nat, c: nat, i: nat)
    requires
        i <= u32::MAX,
        rest.len() > cap > 0,
    ensures
        seal_segments(key, np, rest, cap, c, i) == match gcm_seal(key, segment_nonce(np, i, false), rest.take(cap as int)) {
            None => None,
            Some(s) => prepend(s, seal_segments(key, np, rest.skip(cap as int), c, c, i + 1)),
        },
        i == u32::MAX ==> seal_segments(key, np, rest.skip(cap as int), c, c, i + 1) is None,
{
    reveal(seal_segments);
}

proof fn lemma_open_last(key: Seq<u8>, np: Seq<u8>, rest: Seq<u8>, cap: nat, c: nat, i: nat)
    requires
        i <= u32::MAX,
        rest.len() <= cap,
    ensures
        open_segments(key, np, rest, cap, c, i) == gcm_open(key, segment_nonce(np, i, true), rest),
{
    reveal(open_segments);
}

proof fn lemma_open_step(key: Seq<u8>, np: Seq<u8>, rest: Seq<u8>, cap: nat, c: nat, i: nat)
    requires
        i <= u32::MAX,
        rest.len() > cap > 0,
    ensures
        open_segments(key, np, rest, cap, c, i) == match gcm_open(key, segment_nonce(np, i, false), rest.take(cap as int)) {
            None => None,
            Some(s) => prepend(s, open_segments(key, np, rest.skip(cap as int), c, c, i + 1)),
        },
        i == u32::MAX ==> open_segments(key, np, rest.skip(cap as int), c, c, i + 1) is None,
{
    reveal(open_segments);
}

/// Appending a sealed non-last segment to a body whose opening is known.
proof fn lemma_opened_prefix_grows(
    key: Seq<u8>,
    np: Seq<u8>,
    body: Seq<u8>,
    sealed: Seq<u8>,
    done: Seq<u8>,
    seg: Seq<u8>,
    first: nat,
    c: nat,
    cap: nat,
    i: nat,
)
    requires
        i < u32::MAX,
        seg.len() == cap,
        sealed.len() == cap + 16,
        gcm_open(key, segment_nonce(np, i, false), sealed) == Some(seg),
        forall|t: Seq<u8>| t.len() > 0 ==> open_segments(key, np, body + t, first, c, 0)
            == prepend(done, #[trigger] open_segments(key, np, t, cap + 16, c, i)),
    ensures
        forall|t: Seq<u8>| t.len() > 0 ==> open_segments(key, np, (body + sealed) + t, first, c, 0)
            == prepend(done + seg, #[trigger] open_segments(key, np, t, c, c, i + 1)),
{
    assert forall|t: Seq<u8>| t.len() > 0 implies open_segments(key, np, (body + sealed) + t, first, c, 0)
        == prepend(done + seg, #[trigger] open_segments(key, np, t, c, c, i + 1)) by {
        let st = sealed + t;
        assert((body + sealed) + t =~= body + st);
        assert(st.len() > 0);
        lemma_open_step(key, np, st, cap + 16, c, i);
        assert(st.take(cap + 16 as int) =~= sealed);
        assert(st.skip(cap + 16 as int) =~= t);
        if let Some(x) = open_segments(key, np, t, c, c, i + 1) {
            assert(done + (seg + x) =~= (done + seg) + x);
        }
    }
}

/// Appending the sealed last segment completes the opening.
proof fn lemma_opened_last(
    key: Seq<u8>,
    np: Seq<u8>,
    body: Seq<u8>,
    sealed: Seq<u8>,
    done: Seq<u8>,
    rest: Seq<u8>,
    first: nat,
    c: nat,
    cap: nat,
    i: nat,
)
    requires
        i <= u32::MAX,
        rest.len() <= cap,
        sealed.len() == rest.len() + 16,
        gcm_open(key, segment_nonce(np, i, true), sealed) == Some(rest),
        forall|t: Seq<u8>| t.len() > 0 ==> open_segments(key, np, body + t, first, c, 0)
            == prepend(done, #[trigger] open_segments(key, np, t, cap + 16, c, i)),
    ensures
        open_segments(key, np, body + sealed, first, c, 0) == Some(done + rest),
{
    lemma_open_last(key, np, sealed, cap + 16, c, i);
    assert(sealed.len() > 0);
}

/// The complete stream for plaintext `pt`, or `None` when it cannot be made.
pub open spec fn stream_ciphertext(p: StreamParams, salt: Seq<u8>, np: Seq<u8>, aad: Seq<u8>, pt: Seq<u8>) -> Option<Seq<u8>> {
    match hkdf_of(p.hkdf_alg, p.main_key, salt, aad, p.key_size) {
        None => None,
        Some(key) => match seal_segments(key, np, pt, p.first_plaintext_capacity(), p.plaintext_segment_size, 0) {
            None => None,
            Some(body) => Some(header(p.key_size, salt, np) + body),
        },
    }
}

/// Whether `n` bytes split into segments that can all be sealed, the
/// current one holding `cap` bytes and later ones `c`, numbered from `i`.
pub open spec fn segments_fit(n: nat, cap: nat, c: nat, i: nat) -> bool
    decreases n,
{
    if i > u32::MAX {
        false
    } else if n <= cap {
        n <= GCM_MAX_PLAINTEXT
    } else if cap == 0 {
        false
    } else {
        cap <= GCM_MAX_PLAINTEXT && segments_fit((n - cap) as nat, c, c, i + 1)
    }
}

/// Whether a plaintext of `n` bytes can be made into a stream: the HKDF hash
/// is known and the segments fit.
pub open spec fn can_encrypt(p: StreamParams, n: nat) -> bool {
    &&& p.hkdf_alg != HashType::UnknownHash
    &&& segments_fit(n, p.first_plaintext_capacity(), p.plaintext_segment_size, 0)
}

proof fn lemma_seal_defined(key: Seq<u8>, np: Seq<u8>, rest: Seq<u8>, cap: nat, c: nat, i: nat)
    ensures
        seal_segments(key, np, rest, cap, c, i) is Some <==> segments_fit(rest.len(), cap, c, i),
    decreases rest.len(),
{
    reveal(seal_segments);
    if i <= u32::MAX && rest.len() > cap && cap > 0 {
        lemma_seal_defined(key, np, rest.skip(cap as int), c, c, i + 1);
    }
}

/// A stream can be made exactly when `can_encrypt` holds, whatever the salt
/// and nonce prefix.
proof fn lemma_stream_defined(p: StreamParams, salt: Seq<u8>, np: Seq<u8>, aad: Seq<u8>, pt: Seq<u8>)
    ensures
        stream_ciphertext(p, salt, np, aad, pt) is Some <==> can_encrypt(p, pt.len()),
{
    if let Some(key) = hkdf_of(p.hkdf_alg, p.main_key, salt, aad, p.key_size) {
        lemma_seal_defined(key, np, pt, p.first_plaintext_capacity(), p.plaintext_segment_size, 0);
    }
}

/// The header of `ct` is well formed.
pub open spec fn header_ok(p: StreamParams, ct: Seq<u8>) -> bool {
    ct.len() >= header_len(p.key_size) && ct[0] as nat == header_len(p.key_size)
}

/// The plaintext of stream `ct`, or `None` when it does not authenticate.
pub open spec fn stream_plaintext(p: StreamParams, ct: Seq<u8>, aad: Seq<u8>) -> Option<Seq<u8>> {
    let hl = header_len(p.key_size) as int;
    let salt = ct.subrange(1, 1 + p.key_size as int);
    let np = ct.subrange(1 + p.key_size as int, hl);
    match hkdf_of(p.hkdf_alg, p.main_key, salt, aad, p.key_size) {
        None => None,
        Some(key) => open_segments(key, np, ct.skip(hl), p.first_ciphertext_capacity(), p.ciphertext_segment_size, 0),
    }
}

/// The nonce of segment `i`: the prefix, the big-endian counter, the last flag.
pub fn segment_nonce_bytes(nonce_prefix: &[u8], i: u32, last: bool) -> (r: Vec<u8>)
    ensures
        r@ == segment_nonce(nonce_prefix@, i as nat, last),
{
    let mut r: Vec<u8> = Vec::new();
    r.extend_from_slice(nonce_prefix);
    r.push((i / 0x1000000) as u8);
    r.push(((i / 0x10000) % 256) as u8);
    r.push(((i / 0x100) % 256) as u8);
    r.push((i % 256) as u8);
    r.push(if last { 1u8 } else { 0u8 });
    assert(r@ =~= segment_nonce(nonce_prefix@, i as nat, last));
    r
}

/// Seal one segment under a 16- or 32-byte key.
fn seal_segment(key: &[u8], nonce: &[u8], pt: &[u8]) -> (r: Option<Vec<u8>>)
    requires
        key@.len() == 16 || key@.len() == 32,
        nonce@.len() == 12,
    ensures
        r is Some <==> gcm_seal(key@, nonce@, pt@) is Some,
        r is Some ==> r->Some_0@ == gcm_seal(key@, nonce@, pt@)->Some_0,
        r is Some ==> r->Some_0@.len() == pt@.len() + 16,
        r is Some ==> gcm_open(key@, nonce@, r->Some_0@) == Some(pt@),
{
    if pt.len() as u64 > GCM_MAX_PLAINTEXT {
        return None;
    }
    if key.len() == 16 {
        aes128_gcm_seal(key, nonce, pt)
    } else {
        aes256_gcm_seal(key, nonce, pt)
    }
}

/// Open one segment under a 16- or 32-byte key.
fn open_segment(key: &[u8], nonce: &[u8], ct: &[u8]) -> (r: Option<Vec<u8>>)
    requires
        key@.len() == 16 || key@.len() == 32,
        nonce@.len() == 12,
    ensures
        r is Some <==> gcm_open(key@, nonce@, ct@) is Some,
        r is Some ==> r->Some_0@ == gcm_open(key@, nonce@, ct@)->Some_0,
{
    if key.len() == 16 {
        aes128_gcm_open(key, nonce, ct)
    } else {
        aes256_gcm_open(key, nonce, ct)
    }
}

/// Streaming AEAD with AES-GCM; each stream has its own key, derived by HKDF
/// from the main key, a random salt and the associated data.
pub struct AesGcmHkdf {
    main_key: Vec<u8>,
    hkdf_alg: HashType,
    key_size_in_bytes: usize,
    ciphertext_segment_size: usize,
    first_ciphertext_segment_offset: usize,
    plaintext_segment_size: usize,
}

impl View for AesGcmHkdf {
    type V = StreamParams;

    closed spec fn view(&self) -> StreamParams {
        StreamParams {
            main_key: self.main_key@,
            hkdf_alg: self.hkdf_alg,
            key_size: self.key_size_in_bytes as nat,
            ciphertext_segment_size: self.ciphertext_segment_size as nat,
            first_ciphertext_segment_offset: self.first_ciphertext_segment_offset as nat,
            plaintext_segment_size: self.plaintext_segment_size as nat,
        }
    }
}

impl AesGcmHkdf {
    /// The parameters are consistent, as `new` leaves them.
    pub closed spec fn wf(&self) -> bool {
        &&& self.key_size_in_bytes == 16 || self.key_size_in_bytes == 32
        &&& self.main_key@.len() >= 16
        &&& self.main_key@.len() >= self.key_size_in_bytes
        &&& self.first_ciphertext_segment_offset >= header_len(self.key_size_in_bytes as nat)
        &&& self.ciphertext_segment_size > self.first_ciphertext_segment_offset + 16
        &&& self.plaintext_segment_size == self.ciphertext_segment_size - 16
    }

    /// A streaming primitive with main key `main_key`, HKDF hash `hkdf_alg`,
    /// derived keys of `key_size_in_bytes` bytes, ciphertext segments of
    /// `ciphertext_segment_size` bytes, and `first_segment_offset` bytes
    /// between the header and the first segment.
    pub fn new(
        main_key: &[u8],
        hkdf_alg: HashType,
        key_size_in_bytes: usize,
        ciphertext_segment_size: usize,
        first_segment_offset: usize,
    ) -> (r: Result<AesGcmHkdf, TinkError>)
        ensures
            r is Ok <==> params_ok(
                main_key@.len(),
                key_size_in_bytes as nat,
                ciphertext_segment_size as nat,
                first_segment_offset as nat,
            ),
            r is Ok ==> r->Ok_0.wf() && r->Ok_0@ == (StreamParams {
                main_key: main_key@,
                hkdf_alg,
                key_size: key_size_in_bytes as nat,
                ciphertext_segment_size: ciphertext_segment_size as nat,
                first_ciphertext_segment_offset: first_segment_offset as nat + header_len(
                    key_size_in_bytes as nat,
                ),
                plaintext_segment_size: (ciphertext_segment_size - 16) as nat,
            }),
            r is Err ==> r->Err_0.kind == ErrorKind::InvalidArgument,
    {
        if main_key.len() < 16 || main_key.len() < key_size_in_bytes {
            return Err(TinkError::new(ErrorKind::InvalidArgument, "main_key too short"));
        }
        if key_size_in_bytes != 16 && key_size_in_bytes != 32 {
            return Err(TinkError::new(ErrorKind::InvalidArgument, "invalid AES key size; want 16 or 32"));
        }
        let header_len = 1 + key_size_in_bytes + AES_GCM_HKDF_NONCE_PREFIX_SIZE_IN_BYTES;
        if first_segment_offset > usize::MAX - header_len - AES_GCM_HKDF_TAG_SIZE_IN_BYTES
            || ciphertext_segment_size <= first_segment_offset + header_len
            + AES_GCM_HKDF_TAG_SIZE_IN_BYTES {
            return Err(TinkError::new(ErrorKind::InvalidArgument, "ciphertext_segment_size too small"));
        }
        Ok(AesGcmHkdf {
            main_key: slice_to_vec(main_key),
            hkdf_alg,
            key_size_in_bytes,
            ciphertext_segment_size,
            first_ciphertext_segment_offset: first_segment_offset + header_len,
            plaintext_segment_size: ciphertext_segment_size - AES_GCM_HKDF_TAG_SIZE_IN_BYTES,
        })
    }

    /// The main key that stream keys are derived from.
    pub fn main_key(&self) -> (r: &[u8])
        ensures
            r@ == self@.main_key,
    {
        self.main_key.as_slice()
    }

    /// The length of the stream header.
    pub fn header_length(&self) -> (r: usize)
        requires
            self.wf(),
        ensures
            r == header_len(self@.key_size),
    {
        1 + self.key_size_in_bytes + AES_GCM_HKDF_NONCE_PREFIX_SIZE_IN_BYTES
    }

    /// The complete stream for `plaintext`, under a fresh random salt and
    /// nonce prefix, with `aad` bound through the key derivation.
    pub fn encrypt(&self, aad: &[u8], plaintext: &[u8]) -> (r: Result<Vec<u8>, TinkError>)
        requires
            self.wf(),
        ensures
            r is Ok <==> can_encrypt(self@, plaintext@.len()),
            r is Ok ==> exists|salt: Seq<u8>, np: Seq<u8>|
                salt.len() == self@.key_size && np.len() == 7
                    && #[trigger] stream_ciphertext(self@, salt, np, aad@, plaintext@) == Some(r->Ok_0@),
            r is Ok ==> header_ok(self@, r->Ok_0@) && stream_plaintext(self@, r->Ok_0@, aad@) == Some(plaintext@),
    {
        let salt = random_bytes(self.key_size_in_bytes);
        let nonce_prefix = random_bytes(AES_GCM_HKDF_NONCE_PREFIX_SIZE_IN_BYTES);
        proof {
            lemma_stream_defined(self@, salt@, nonce_prefix@, aad@, plaintext@);
        }
        self.encrypt_with(salt.as_slice(), nonce_prefix.as_slice(), aad, plaintext)
    }

    /// The complete stream for `plaintext` under the given salt and nonce
    /// prefix (drawn at random by the caller for each stream), with `aad`
    /// bound through the key derivation.
    #[verifier::rlimit(40)]
    pub fn encrypt_with(&self, salt: &[u8], nonce_prefix: &[u8], aad: &[u8], plaintext: &[u8]) -> (r: Result<Vec<u8>, TinkError>)
        requires
            self.wf(),
        ensures
            r is Ok <==> salt@.len() == self@.key_size && nonce_prefix@.len() == 7
                && stream_ciphertext(self@, salt@, nonce_prefix@, aad@, plaintext@) is Some,
            r is Ok ==> r->Ok_0@ == stream_ciphertext(self@, salt@, nonce_prefix@, aad@, plaintext@)->Some_0,
            r is Ok ==> header_ok(self@, r->Ok_0@) && stream_plaintext(self@, r->Ok_0@, aad@) == Some(plaintext@),
    {
        if salt.len() != self.key_size_in_bytes || nonce_prefix.len() != AES_GCM_HKDF_NONCE_PREFIX_SIZE_IN_BYTES {
            return Err(TinkError::new(ErrorKind::InvalidArgument, "invalid salt or nonce prefix length"));
        }
        let key = match self.derive_key(salt, aad) {
            Ok(k) => k,
            Err(e) => {
                return Err(e);
            },
        };
        let ghost full = seal_segments(key@, nonce_prefix@, plaintext@, self@.first_plaintext_capacity(), self@.plaintext_segment_size, 0);
        let n = plaintext.len();
        let mut body: Vec<u8> = Vec::new();
        let mut pos: usize = 0;
        let mut cap: usize = self.plaintext_segment_size - self.first_ciphertext_segment_offset;
        let mut i: u32 = 0;
        assert(plaintext@.skip(0) =~= plaintext@);
        assert(plaintext@.take(0) + plaintext@ =~= plaintext@);
        assert(body@ + Seq::<u8>::empty() =~= Seq::<u8>::empty());
        assert forall|t: Seq<u8>| t.len() > 0 implies open_segments(key@, nonce_prefix@, body@ + t, self@.first_ciphertext_capacity(), self@.ciphertext_segment_size, 0)
            == prepend(plaintext@.take(0), #[trigger] open_segments(key@, nonce_prefix@, t, (self.plaintext_segment_size - self.first_ciphertext_segment_offset) as nat + 16, self@.ciphertext_segment_size, 0)) by {
            assert(body@ + t =~= t);
            if let Some(x) = open_segments(key@, nonce_prefix@, t, self@.first_ciphertext_capacity(), self@.ciphertext_segment_size, 0) {
                assert(plaintext@.take(0) + x =~= x);
            }
        }
        loop
            invariant
                self.wf(),
                key@.len() == self@.key_size,
                nonce_prefix@.len() == 7,
                salt@.len() == self@.key_size,
                hkdf_of(self@.hkdf_alg, self@.main_key, salt@, aad@, self@.key_size) == Some(key@),
                0 <= pos <= n == plaintext@.len(),
                0 < cap <= self.plaintext_segment_size,
                i == 0 ==> cap as nat == self@.first_plaintext_capacity(),
                i > 0 ==> cap == self.plaintext_segment_size,
                plaintext@.take(pos as int) + plaintext@.skip(pos as int) == plaintext@,
                forall|t: Seq<u8>| t.len() > 0 ==> open_segments(key@, nonce_prefix@, body@ + t, self@.first_ciphertext_capacity(), self@.ciphertext_segment_size, 0)
                    == prepend(plaintext@.take(pos as int), #[trigger] open_segments(key@, nonce_prefix@, t, cap as nat + 16, self@.ciphertext_segment_size, i as nat)),
                full == seal_segments(key@, nonce_prefix@, plaintext@, self@.first_plaintext_capacity(), self@.plaintext_segment_size, 0),
                full == prepend(body@, seal_segments(key@, nonce_prefix@, plaintext@.skip(pos as int), cap as nat, self@.plaintext_segment_size, i as nat)),
            decreases n - pos,
        {
            let rest = slice_subrange(plaintext, pos, n);
            assert(rest@ =~= plaintext@.skip(pos as int));
            if n - pos <= cap {
                proof {
                    lemma_seal_last(key@, nonce_prefix@, rest@, cap as nat, self@.plaintext_segment_size, i as nat);
                }
                let nonce = segment_nonce_bytes(nonce_prefix, i, true);
                let sealed = match seal_segment(key.as_slice(), nonce.as_slice(), rest) {
                    Some(c) => c,
                    None => {
                        return Err(TinkError::new(ErrorKind::InvalidArgument, "segment too long"));
                    },
                };
                let ghost before = body@;
                body.extend_from_slice(sealed.as_slice());
                let mut out: Vec<u8> = Vec::new();
                out.push((1 + self.key_size_in_bytes + AES_GCM_HKDF_NONCE_PREFIX_SIZE_IN_BYTES) as u8);
                out.extend_from_slice(salt);
                out.extend_from_slice(nonce_prefix);
                out.extend_from_slice(body.as_slice());
                proof {
                    assert(out@ =~= header(self@.key_size, salt@, nonce_prefix@) + body@);
                    assert(body@ == before + sealed@);
                    assert(plaintext@.take(pos as int) + rest@ =~= plaintext@);
                    lemma_opened_last(key@, nonce_prefix@, before, sealed@, plaintext@.take(pos as int), rest@,
                        self@.first_ciphertext_capacity(), self@.ciphertext_segment_size, cap as nat, i as nat);
                    assert(out@.subrange(1, 1 + self@.key_size as int) =~= salt@);
                    assert(out@.subrange(1 + self@.key_size as int, header_len(self@.key_size) as int) =~= nonce_prefix@);
                    assert(out@.skip(header_len(self@.key_size) as int) =~= body@);
                }
                return Ok(out);
            }
            let seg = slice_subrange(plaintext, pos, pos + cap);
            assert(seg@ =~= rest@.take(cap as int));
            proof {
                lemma_seal_step(key@, nonce_prefix@, rest@, cap as nat, self@.plaintext_segment_size, i as nat);
                assert(rest@.skip(cap as int) =~= plaintext@.skip(pos + cap));
            }
            let nonce = segment_nonce_bytes(nonce_prefix, i, false);
            let sealed = match seal_segment(key.as_slice(), nonce.as_slice(), seg) {
                Some(c) => c,
                None => {
                    return Err(TinkError::new(ErrorKind::InvalidArgument, "segment too long"));
                },
            };
            if i == u32::MAX {
                return Err(TinkError::new(ErrorKind::InvalidArgument, "too many segments"));
            }
            let ghost before = body@;
            body.extend_from_slice(sealed.as_slice());
            proof {
                let tail = seal_segments(key@, nonce_prefix@, plaintext@.skip(pos + cap), self@.plaintext_segment_size, self@.plaintext_segment_size, i as nat + 1);
                if let Some(t) = tail {
                    assert(before + (sealed@ + t) =~= body@ + t);
                }
                assert(plaintext@.take(pos + cap) + plaintext@.skip(pos + cap) =~= plaintext@);
                assert(plaintext@.take(pos as int) + seg@ =~= plaintext@.take(pos + cap));
                assert(body@ =~= before + sealed@);
                lemma_opened_prefix_grows(key@, nonce_prefix@, before, sealed@, plaintext@.take(pos as int), seg@,
                    self@.first_ciphertext_capacity(), self@.ciphertext_segment_size, cap as nat, i as nat);
            }
            pos = pos + cap;
            cap = self.plaintext_segment_size;
            i = i + 1;
        }
    }

    /// The plaintext of the stream `ciphertext`, made with the same
    /// associated data `aad`. Every failure (a bad header, a segment that does
    /// not authenticate, a missing last segment) is `InvalidCiphertext`, but
    /// for a hash that the key derivation does not offer.
    pub fn decrypt(&self, ciphertext: &[u8], aad: &[u8]) -> (r: Result<Vec<u8>, TinkError>)
        requires
            self.wf(),
        ensures
            r is Ok <==> header_ok(self@, ciphertext@) && stream_plaintext(self@, ciphertext@, aad@) is Some,
            r is Ok ==> r->Ok_0@ == stream_plaintext(self@, ciphertext@, aad@)->Some_0,
            !header_ok(self@, ciphertext@) ==> r is Err && r->Err_0.kind == ErrorKind::InvalidCiphertext,
    {
        let hl = 1 + self.key_size_in_bytes + AES_GCM_HKDF_NONCE_PREFIX_SIZE_IN_BYTES;
        if ciphertext.len() < hl || ciphertext[0] as usize != hl {
            return Err(TinkError::new(ErrorKind::InvalidCiphertext, "invalid header"));
        }
        let salt = slice_subrange(ciphertext, 1, 1 + self.key_size_in_bytes);
        let nonce_prefix = slice_subrange(ciphertext, 1 + self.key_size_in_bytes, hl);
        assert(salt@ =~= ciphertext@.subrange(1, 1 + self@.key_size as int));
        assert(nonce_prefix@ =~= ciphertext@.subrange(1 + self@.key_size as int, hl as int));
        let key = match self.derive_key(salt, aad) {
            Ok(k) => k,
            Err(e) => {
                return Err(e);
            },
        };
        let n = ciphertext.len();
        let mut out: Vec<u8> = Vec::new();
        let ghost full = open_segments(key@, nonce_prefix@, ciphertext@.skip(hl as int), self@.first_ciphertext_capacity(), self@.ciphertext_segment_size, 0);
        assert(out@ + Seq::<u8>::empty() =~= Seq::<u8>::empty());
        let mut pos: usize = hl;
        let mut cap: usize = self.ciphertext_segment_size - self.first_ciphertext_segment_offset;
        let mut i: u32 = 0;
        loop
            invariant
                self.wf(),
                key@.len() == self@.key_size,
                nonce_prefix@.len() == 7,
                hl == header_len(self@.key_size),
                header_ok(self@, ciphertext@),
                salt@ == ciphertext@.subrange(1, 1 + self@.key_size as int),
                nonce_prefix@ == ciphertext@.subrange(1 + self@.key_size as int, hl as int),
                hkdf_of(self@.hkdf_alg, self@.main_key, salt@, aad@, self@.key_size) == Some(key@),
                full == open_segments(key@, nonce_prefix@, ciphertext@.skip(hl as int), self@.first_ciphertext_capacity(), self@.ciphertext_segment_size, 0),
                hl <= pos <= n == ciphertext@.len(),
                cap > 0,
                full == prepend(out@, open_segments(key@, nonce_prefix@, ciphertext@.skip(pos as int), cap as nat, self@.ciphertext_segment_size, i as nat)),
            decreases n - pos,
        {
            let rest = slice_subrange(ciphertext, pos, n);
            assert(rest@ =~= ciphertext@.skip(pos as int));
            if n - pos <= cap {
                proof {
                    lemma_open_last(key@, nonce_prefix@, rest@, cap as nat, self@.ciphertext_segment_size, i as nat);
                }
                let nonce = segment_nonce_bytes(nonce_prefix, i, true);
                let opened = match open_segment(key.as_slice(), nonce.as_slice(), rest) {
                    Some(p) => p,
                    None => {
                        return Err(TinkError::new(ErrorKind::InvalidCiphertext, "segment does not authenticate"));
                    },
                };
                out.extend_from_slice(opened.as_slice());
                return Ok(out);
            }
            let seg = slice_subrange(ciphertext, pos, pos + cap);
            assert(seg@ =~= rest@.take(cap as int));
            proof {
                lemma_open_step(key@, nonce_prefix@, rest@, cap as nat, self@.ciphertext_segment_size, i as nat);
                assert(rest@.skip(cap as int) =~= ciphertext@.skip(pos + cap));
            }
            let nonce = segment_nonce_bytes(nonce_prefix, i, false);
            let opened = match open_segment(key.as_slice(), nonce.as_slice(), seg) {
                Some(p) => p,
                None => {
                    return Err(TinkError::new(ErrorKind::InvalidCiphertext, "segment does not authenticate"));
                },
            };
            if i == u32::MAX {
                return Err(TinkError::new(ErrorKind::InvalidCiphertext, "too many segments"));
            }
            let ghost before = out@;
            out.extend_from_slice(opened.as_slice());
            proof {
                let tail = open_segments(key@, nonce_prefix@, ciphertext@.skip(pos + cap), self@.ciphertext_segment_size, self@.ciphertext_segment_size, i as nat + 1);
                if let Some(t) = tail {
                    assert(before + (opened@ + t) =~= out@ + t);
                }
            }
            pos = pos + cap;
            cap = self.ciphertext_segment_size;
            i = i + 1;
        }
    }

    /// A writer that encrypts a stream piece by piece under a fresh random
    /// salt and nonce prefix, with `aad` bound through the key derivation,
    /// and the header that must go first on the wire.
    pub fn new_encrypting_writer(&self, aad: &[u8]) -> (r: Result<(EncryptingWriter, Vec<u8>), TinkError>)
        requires
            self.wf(),
        ensures
            r is Ok <==> hkdf_of(self@.hkdf_alg, self@.main_key, Seq::<u8>::empty(), aad@, self@.key_size) is Some,
            r is Ok ==> {
                let (w, hdr) = r->Ok_0;
                &&& w.inv()
                &&& w.params() == self@
                &&& w.aad() == aad@
                &&& w.written() == Seq::<u8>::empty()
                &&& w.emitted() == Seq::<u8>::empty()
                &&& !w.is_closed()
                &&& w.salt().len() == self@.key_size
                &&& w.nonce_prefix().len() == 7
                &&& hdr@ == header(self@.key_size, w.salt(), w.nonce_prefix())
                &&& hdr@.len() == header_len(self@.key_size)
            },
    {
        let salt = random_bytes(self.key_size_in_bytes);
        let nonce_prefix = random_bytes(AES_GCM_HKDF_NONCE_PREFIX_SIZE_IN_BYTES);
        let key = match self.derive_key(salt.as_slice(), aad) {
            Ok(k) => k,
            Err(e) => {
                return Err(e);
            },
        };
        let mut hdr: Vec<u8> = Vec::new();
        hdr.push((1 + self.key_size_in_bytes + AES_GCM_HKDF_NONCE_PREFIX_SIZE_IN_BYTES) as u8);
        hdr.extend_from_slice(salt.as_slice());
        hdr.extend_from_slice(nonce_prefix.as_slice());
        assert(hdr@ =~= header(self@.key_size, salt@, nonce_prefix@));
        let w = EncryptingWriter {
            key,
            nonce_prefix,
            buf: Vec::new(),
            cap: self.plaintext_segment_size - self.first_ciphertext_segment_offset,
            segment_size: self.plaintext_segment_size,
            counter: 0,
            closed: false,
            params: Ghost(self@),
            salt: Ghost(salt@),
            aad: Ghost(aad@),
            written: Ghost(Seq::empty()),
            emitted: Ghost(Seq::empty()),
        };
        proof {
            assert forall|f: Seq<u8>| #[trigger] w.stream_of(f) == prepend(w.emitted@, w.rest_of(f)) by {
                assert(w.written@ + f =~= f);
                assert(w.buf@ + f =~= f);
                if let Some(x) = w.rest_of(f) {
                    assert(w.emitted@ + x =~= x);
                }
            }
        }
        Ok((w, hdr))
    }

    /// A reader for the stream whose header is `hdr`, made with associated
    /// data `aad`; the body is then fed to it piece by piece.
    pub fn new_decrypting_reader(&self, hdr: &[u8], aad: &[u8]) -> (r: Result<DecryptingReader, TinkError>)
        requires
            self.wf(),
        ensures
            hdr@.len() != header_len(self@.key_size) || !header_ok(self@, hdr@) ==> r is Err && r->Err_0.kind
                == ErrorKind::InvalidCiphertext,
            hdr@.len() == header_len(self@.key_size) && header_ok(self@, hdr@) && hkdf_of(
                self@.hkdf_alg,
                self@.main_key,
                hdr@.subrange(1, 1 + self@.key_size as int),
                aad@,
                self@.key_size,
            ) is Some ==> r is Ok,
            r is Ok ==> {
                let rd = r->Ok_0;
                &&& rd.inv()
                &&& rd.params() == self@
                &&& rd.header() == hdr@
                &&& rd.aad() == aad@
                &&& rd.consumed() == Seq::<u8>::empty()
                &&& rd.produced() == Seq::<u8>::empty()
                &&& !rd.is_done()
            },
    {
        let hl = 1 + self.key_size_in_bytes + AES_GCM_HKDF_NONCE_PREFIX_SIZE_IN_BYTES;
        if hdr.len() != hl || hdr[0] as usize != hl {
            return Err(TinkError::new(ErrorKind::InvalidCiphertext, "invalid header"));
        }
        let salt = slice_subrange(hdr, 1, 1 + self.key_size_in_bytes);
        let nonce_prefix = slice_to_vec(slice_subrange(hdr, 1 + self.key_size_in_bytes, hl));
        let key = match self.derive_key(salt, aad) {
            Ok(k) => k,
            Err(e) => {
                return Err(e);
            },
        };
        let rd = DecryptingReader {
            key,
            nonce_prefix,
            buf: Vec::new(),
            cap: self.ciphertext_segment_size - self.first_ciphertext_segment_offset,
            segment_size: self.ciphertext_segment_size,
            counter: 0,
            done: false,
            params: Ghost(self@),
            header: Ghost(hdr@),
            aad: Ghost(aad@),
            consumed: Ghost(Seq::empty()),
            produced: Ghost(Seq::empty()),
        };
        proof {
            assert(salt@ =~= hdr@.subrange(1, 1 + self@.key_size as int));
            assert(rd.nonce_prefix@ =~= hdr@.subrange(1 + self@.key_size as int, hl as int));
            assert forall|f: Seq<u8>| #[trigger] rd.body_of(f) == prepend(rd.produced@, rd.rest_of(f)) by {
                assert(rd.consumed@ + f =~= f);
                let ct = hdr@ + f;
                assert(ct.subrange(1, 1 + self@.key_size as int) =~= salt@);
                assert(ct.subrange(1 + self@.key_size as int, hl as int) =~= rd.nonce_prefix@);
                assert(ct.skip(hl as int) =~= f);
                assert(rd.buf@ + f =~= f);
                if let Some(x) = rd.rest_of(f) {
                    assert(rd.produced@ + x =~= x);
                }
            }
        }
        Ok(rd)
    }

    /// The stream key for `salt` and `aad`.
    fn derive_key(&self, salt: &[u8], aad: &[u8]) -> (r: Result<Vec<u8>, TinkError>)
        requires
            self.wf(),
        ensures
            r is Ok <==> hkdf_of(self@.hkdf_alg, self@.main_key, salt@, aad@, self@.key_size) is Some,
            r is Ok ==> r->Ok_0@ == hkdf_of(self@.hkdf_alg, self@.main_key, salt@, aad@, self@.key_size)->Some_0,
            r is Ok ==> r->Ok_0@.len() == self@.key_size,
    {
        let key = match self.hkdf_alg {
            HashType::Sha1 => hkdf_sha1(self.main_key.as_slice(), salt, aad, self.key_size_in_bytes),
            HashType::Sha256 => hkdf_sha256(self.main_key.as_slice(), salt, aad, self.key_size_in_bytes),
            HashType::Sha512 => hkdf_sha512(self.main_key.as_slice(), salt, aad, self.key_size_in_bytes),
            HashType::Sha224 => hkdf_sha224(self.main_key.as_slice(), salt, aad, self.key_size_in_bytes),
            HashType::Sha384 => hkdf_sha384(self.main_key.as_slice(), salt, aad, self.key_size_in_bytes),
            HashType::UnknownHash => {
                return Err(TinkError::new(ErrorKind::InvalidArgument, "unsupported HKDF hash"));
            },
        };
        match key {
            Some(k) => Ok(k),
            None => Err(TinkError::new(ErrorKind::Internal, "key derivation failed")),
        }
    }
}

/// Encrypts a stream piece by piece. Plaintext is buffered until a full
/// segment is known not to be the last; `close` seals what is left as the
/// last segment. Header, everything `write` returned and what `close`
/// returned, in that order, form the stream.
pub struct EncryptingWriter {
    key: Vec<u8>,
    nonce_prefix: Vec<u8>,
    buf: Vec<u8>,
    cap: usize,
    segment_size: usize,
    counter: u32,
    closed: bool,
    params: Ghost<StreamParams>,
    salt: Ghost<Seq<u8>>,
    aad: Ghost<Seq<u8>>,
    written: Ghost<Seq<u8>>,
    emitted: Ghost<Seq<u8>>,
}

impl EncryptingWriter {
    pub closed spec fn params(&self) -> StreamParams {
        self.params@
    }

    pub closed spec fn salt(&self) -> Seq<u8> {
        self.salt@
    }

    pub closed spec fn nonce_prefix(&self) -> Seq<u8> {
        self.nonce_prefix@
    }

    pub closed spec fn aad(&self) -> Seq<u8> {
        self.aad@
    }

    /// All plaintext handed to `write` so far.
    pub closed spec fn written(&self) -> Seq<u8> {
        self.written@
    }

    /// All ciphertext returned so far, header excluded.
    pub closed spec fn emitted(&self) -> Seq<u8> {
        self.emitted@
    }

    pub closed spec fn is_closed(&self) -> bool {
        self.closed
    }

    /// The stream body for everything written so far followed by `f`.
    closed spec fn stream_of(&self, f: Seq<u8>) -> Option<Seq<u8>> {
        seal_segments(self.key@, self.nonce_prefix@, self.written@ + f, self.params@.first_plaintext_capacity(), self.params@.plaintext_segment_size, 0)
    }

    /// The segments still to come for the buffer followed by `f`.
    closed spec fn rest_of(&self, f: Seq<u8>) -> Option<Seq<u8>> {
        seal_segments(self.key@, self.nonce_prefix@, self.buf@ + f, self.cap as nat, self.segment_size as nat, self.counter as nat)
    }

    /// What was emitted is the start of the stream for any continuation.
    pub closed spec fn inv(&self) -> bool {
        &&& self.key@.len() == 16 || self.key@.len() == 32
        &&& hkdf_of(self.params@.hkdf_alg, self.params@.main_key, self.salt@, self.aad@, self.params@.key_size) == Some(self.key@)
        &&& self.salt@.len() == self.params@.key_size
        &&& self.nonce_prefix@.len() == 7
        &&& self.segment_size as nat == self.params@.plaintext_segment_size
        &&& 0 < self.cap <= self.segment_size
        &&& self.buf@.len() <= self.cap
        &&& forall|f: Seq<u8>| #[trigger] self.stream_of(f) == prepend(self.emitted@, self.rest_of(f))
    }

    /// Encrypt `data`; the result is the ciphertext that is now complete.
    pub fn write(&mut self, data: &[u8]) -> (r: Result<Vec<u8>, TinkError>)
        requires
            old(self).inv(),
        ensures
            old(self).is_closed() ==> r is Err && r->Err_0.kind == ErrorKind::Internal,
            r is Ok ==> {
                &&& final(self).inv()
                &&& !final(self).is_closed()
                &&& final(self).params() == old(self).params()
                &&& final(self).salt() == old(self).salt()
                &&& final(self).nonce_prefix() == old(self).nonce_prefix()
                &&& final(self).aad() == old(self).aad()
                &&& final(self).written() == old(self).written() + data@
                &&& final(self).emitted() == old(self).emitted() + r->Ok_0@
            },
            r is Err && !old(self).is_closed() ==> final(self).is_closed() && forall|f: Seq<u8>|
                #[trigger] stream_ciphertext(old(self).params(), old(self).salt(), old(self).nonce_prefix(), old(self).aad(), old(self).written() + data@ + f) is None,
    {
        if self.closed {
            return Err(TinkError::new(ErrorKind::Internal, "write on a closed stream"));
        }
        let ghost start = self.emitted@;
        let mut out: Vec<u8> = Vec::new();
        let mut pos: usize = 0;
        let ghost w0 = self.written@;
        while pos < data.len()
            invariant
                self.inv(),
                !self.closed,
                !old(self).closed,
                0 <= pos <= data@.len(),
                self.params@ == old(self).params@,
                self.salt@ == old(self).salt@,
                self.nonce_prefix@ == old(self).nonce_prefix@,
                self.aad@ == old(self).aad@,
                self.written@ == w0 + data@.take(pos as int),
                w0 == old(self).written@,
                self.emitted@ == start + out@,
                start == old(self).emitted@,
            decreases data@.len() - pos,
        {
            let ghost before = *self;
            if self.buf.len() == self.cap {
                proof {
                    if self.counter == u32::MAX || gcm_seal(self.key@, segment_nonce(self.nonce_prefix@, self.counter as nat, false), self.buf@) is None {
                        assert forall|f: Seq<u8>|
                            #[trigger] stream_ciphertext(old(self).params(), old(self).salt(), old(self).nonce_prefix(), old(self).aad(), old(self).written() + data@ + f) is None by {
                            let g = data@.skip(pos as int) + f;
                            assert(old(self).written() + data@ + f =~= self.written@ + g);
                            assert(self.stream_of(g) == prepend(self.emitted@, self.rest_of(g)));
                            let whole = self.buf@ + g;
                            lemma_seal_step(self.key@, self.nonce_prefix@, whole, self.cap as nat, self.segment_size as nat, self.counter as nat);
                            assert(whole.take(self.cap as int) =~= self.buf@);
                        }
                    }
                }
                if self.counter == u32::MAX {
                    self.closed = true;
                    return Err(TinkError::new(ErrorKind::InvalidArgument, "too many segments"));
                }
                let nonce = segment_nonce_bytes(self.nonce_prefix.as_slice(), self.counter, false);
                let sealed = match seal_segment(self.key.as_slice(), nonce.as_slice(), self.buf.as_slice()) {
                    Some(c) => c,
                    None => {
                        self.closed = true;
                        return Err(TinkError::new(ErrorKind::InvalidArgument, "segment too long"));
                    },
                };
                out.extend_from_slice(sealed.as_slice());
                self.buf = Vec::new();
                self.cap = self.segment_size;
                self.counter = self.counter + 1;
                self.emitted = Ghost(self.emitted@ + sealed@);
            }
            let room = self.cap - self.buf.len();
            let left = data.len() - pos;
            let take = if room < left { room } else { left };
            let piece = slice_subrange(data, pos, pos + take);
            self.buf.extend_from_slice(piece);
            self.written = Ghost(self.written@ + piece@);
            proof {
                assert(data@.take(pos as int) + piece@ =~= data@.take(pos + take));
                assert(self.written@ =~= w0 + data@.take(pos + take));
                assert(self.emitted@ =~= start + out@);
                assert(piece@.len() > 0);
                assert forall|f: Seq<u8>| #[trigger] self.stream_of(f) == prepend(self.emitted@, self.rest_of(f)) by {
                    let pf = piece@ + f;
                    assert(self.written@ + f =~= before.written@ + pf);
                    assert(before.stream_of(pf) == prepend(before.emitted@, before.rest_of(pf)));
                    if before.buf@.len() == before.cap {
                        let whole = before.buf@ + pf;
                        lemma_seal_step(before.key@, before.nonce_prefix@, whole, before.cap as nat, before.segment_size as nat, before.counter as nat);
                        assert(whole.take(before.cap as int) =~= before.buf@);
                        assert(whole.skip(before.cap as int) =~= pf);
                        assert(self.buf@ + f =~= pf);
                        if let Some(x) = self.rest_of(f) {
                            assert(before.emitted@ + (self.emitted@.skip(before.emitted@.len() as int) + x) =~= self.emitted@ + x);
                        }
                    } else {
                        assert(self.buf@ + f =~= before.buf@ + pf);
                    }
                }
            }
            pos = pos + take;
        }
        assert(data@.take(data@.len() as int) =~= data@);
        Ok(out)
    }

    /// Seal what is buffered as the last segment. After a successful close,
    /// header, output of every write and this result form the stream of all
    /// that was written.
    pub fn close(&mut self) -> (r: Result<Vec<u8>, TinkError>)
        requires
            old(self).inv(),
        ensures
            old(self).is_closed() ==> r is Err && r->Err_0.kind == ErrorKind::Internal,
            final(self).is_closed(),
            r is Ok ==> stream_ciphertext(old(self).params(), old(self).salt(), old(self).nonce_prefix(), old(self).aad(), old(self).written())
                == Some(header(old(self).params().key_size, old(self).salt(), old(self).nonce_prefix()) + old(self).emitted() + r->Ok_0@),
            r is Err && !old(self).is_closed() ==> stream_ciphertext(old(self).params(), old(self).salt(), old(self).nonce_prefix(), old(self).aad(), old(self).written()) is None,
    {
        if self.closed {
            return Err(TinkError::new(ErrorKind::Internal, "close on a closed stream"));
        }
        proof {
            assert(self.stream_of(Seq::empty()) == prepend(self.emitted@, self.rest_of(Seq::empty())));
            assert(self.written@ + Seq::<u8>::empty() =~= self.written@);
            assert(self.buf@ + Seq::<u8>::empty() =~= self.buf@);
            lemma_seal_last(self.key@, self.nonce_prefix@, self.buf@, self.cap as nat, self.segment_size as nat, self.counter as nat);
        }
        self.closed = true;
        let nonce = segment_nonce_bytes(self.nonce_prefix.as_slice(), self.counter, true);
        match seal_segment(self.key.as_slice(), nonce.as_slice(), self.buf.as_slice()) {
            Some(c) => {
                proof {
                    let h = header(self.params@.key_size, self.salt@, self.nonce_prefix@);
                    assert(h + (self.emitted@ + c@) =~= h + self.emitted@ + c@);
                }
                Ok(c)
            },
            None => Err(TinkError::new(ErrorKind::InvalidArgument, "segment too long")),
        }
    }
}

/// Decrypts a stream piece by piece, after its header. Ciphertext is
/// buffered until a full segment is known not to be the last; `finish`
/// opens what is left as the last segment. The first segment that does not
/// authenticate ends the stream.
pub struct DecryptingReader {
    key: Vec<u8>,
    nonce_prefix: Vec<u8>,
    buf: Vec<u8>,
    cap: usize,
    segment_size: usize,
    counter: u32,
    done: bool,
    params: Ghost<StreamParams>,
    header: Ghost<Seq<u8>>,
    aad: Ghost<Seq<u8>>,
    consumed: Ghost<Seq<u8>>,
    produced: Ghost<Seq<u8>>,
}

impl DecryptingReader {
    pub closed spec fn params(&self) -> StreamParams {
        self.params@
    }

    pub closed spec fn header(&self) -> Seq<u8> {
        self.header@
    }

    pub closed spec fn aad(&self) -> Seq<u8> {
        self.aad@
    }

    /// All ciphertext fed so far, header excluded.
    pub closed spec fn consumed(&self) -> Seq<u8> {
        self.consumed@
    }

    /// All plaintext returned so far.
    pub closed spec fn produced(&self) -> Seq<u8> {
        self.produced@
    }

    pub closed spec fn is_done(&self) -> bool {
        self.done
    }

    /// The plaintext of the whole stream, if the body is what was fed so far followed by `f`.
    closed spec fn body_of(&self, f: Seq<u8>) -> Option<Seq<u8>> {
        stream_plaintext(self.params@, self.header@ + (self.consumed@ + f), self.aad@)
    }

    /// The plaintext of the segments still to come for the buffer followed by `f`.
    closed spec fn rest_of(&self, f: Seq<u8>) -> Option<Seq<u8>> {
        open_segments(self.key@, self.nonce_prefix@, self.buf@ + f, self.cap as nat, self.segment_size as nat, self.counter as nat)
    }

    /// What was produced is the start of the plaintext for any continuation.
    pub closed spec fn inv(&self) -> bool {
        &&& self.key@.len() == 16 || self.key@.len() == 32
        &&& self.header@.len() == header_len(self.params@.key_size)
        &&& hkdf_of(self.params@.hkdf_alg, self.params@.main_key, self.header@.subrange(1, 1 + self.params@.key_size as int), self.aad@, self.params@.key_size) == Some(self.key@)
        &&& self.nonce_prefix@ == self.header@.subrange(1 + self.params@.key_size as int, header_len(self.params@.key_size) as int)
        &&& self.nonce_prefix@.len() == 7
        &&& self.segment_size as nat == self.params@.ciphertext_segment_size
        &&& 0 < self.cap <= self.segment_size
        &&& self.buf@.len() <= self.cap
        &&& forall|f: Seq<u8>| #[trigger] self.body_of(f) == prepend(self.produced@, self.rest_of(f))
    }

    /// Feed the next piece of the body; the result is the plaintext of the
    /// segments that are now complete. On an error no continuation of what
    /// was fed can authenticate.
    pub fn feed(&mut self, data: &[u8]) -> (r: Result<Vec<u8>, TinkError>)
        requires
            old(self).inv(),
        ensures
            old(self).is_done() ==> r is Err && r->Err_0.kind == ErrorKind::Internal,
            final(self).params() == old(self).params(),
            final(self).header() == old(self).header(),
            final(self).aad() == old(self).aad(),
            r is Ok ==> {
                &&& final(self).inv()
                &&& !final(self).is_done()
                &&& final(self).consumed() == old(self).consumed() + data@
                &&& final(self).produced() == old(self).produced() + r->Ok_0@
            },
            r is Err && !old(self).is_done() ==> final(self).is_done() && forall|f: Seq<u8>|
                #[trigger] stream_plaintext(old(self).params(), old(self).header() + (old(self).consumed() + data@ + f), old(self).aad()) is None,
    {
        if self.done {
            return Err(TinkError::new(ErrorKind::Internal, "read past the end of the stream"));
        }
        let ghost start = self.produced@;
        let ghost c0 = self.consumed@;
        let mut out: Vec<u8> = Vec::new();
        let mut pos: usize = 0;
        while pos < data.len()
            invariant
                self.inv(),
                !self.done,
                !old(self).done,
                0 <= pos <= data@.len(),
                self.params@ == old(self).params@,
                self.header@ == old(self).header@,
                self.aad@ == old(self).aad@,
                self.consumed@ == c0 + data@.take(pos as int),
                c0 == old(self).consumed@,
                self.produced@ == start + out@,
                start == old(self).produced@,
            decreases data@.len() - pos,
        {
            let ghost before = *self;
            if self.buf.len() == self.cap {
                let nonce = segment_nonce_bytes(self.nonce_prefix.as_slice(), self.counter, false);
                let opened = open_segment(self.key.as_slice(), nonce.as_slice(), self.buf.as_slice());
                if opened.is_none() || self.counter == u32::MAX {
                    self.done = true;
                    proof {
                        assert forall|f: Seq<u8>|
                            #[trigger] stream_plaintext(old(self).params(), old(self).header() + (old(self).consumed() + data@ + f), old(self).aad()) is None by {
                            let g = data@.skip(pos as int) + f;
                            assert(old(self).consumed() + data@ + f =~= before.consumed@ + g);
                            assert(before.body_of(g) == prepend(before.produced@, before.rest_of(g)));
                            let whole = before.buf@ + g;
                            lemma_open_step(before.key@, before.nonce_prefix@, whole, before.cap as nat, before.segment_size as nat, before.counter as nat);
                            assert(whole.take(before.cap as int) =~= before.buf@);
                        }
                    }
                    return Err(TinkError::new(ErrorKind::InvalidCiphertext, "segment does not authenticate"));
                }
                let plain = match opened {
                    Some(p) => p,
                    None => Vec::new(),
                };
                out.extend_from_slice(plain.as_slice());
                self.buf = Vec::new();
                self.cap = self.segment_size;
                self.counter = self.counter + 1;
                self.produced = Ghost(self.produced@ + plain@);
            }
            let room = self.cap - self.buf.len();
            let left = data.len() - pos;
            let take = if room < left { room } else { left };
            let piece = slice_subrange(data, pos, pos + take);
            self.buf.extend_from_slice(piece);
            self.consumed = Ghost(self.consumed@ + piece@);
            proof {
                assert(data@.take(pos as int) + piece@ =~= data@.take(pos + take));
                assert(self.consumed@ =~= c0 + data@.take(pos + take));
                assert(self.produced@ =~= start + out@);
                assert(piece@.len() > 0);
                assert forall|f: Seq<u8>| #[trigger] self.body_of(f) == prepend(self.produced@, self.rest_of(f)) by {
                    let pf = piece@ + f;
                    assert(self.consumed@ + f =~= before.consumed@ + pf);
                    assert(before.body_of(pf) == prepend(before.produced@, before.rest_of(pf)));
                    if before.buf@.len() == before.cap {
                        let whole = before.buf@ + pf;
                        lemma_open_step(before.key@, before.nonce_prefix@, whole, before.cap as nat, before.segment_size as nat, before.counter as nat);
                        assert(whole.take(before.cap as int) =~= before.buf@);
                        assert(whole.skip(before.cap as int) =~= pf);
                        assert(self.buf@ + f =~= pf);
                        if let Some(x) = self.rest_of(f) {
                            assert(before.produced@ + (self.produced@.skip(before.produced@.len() as int) + x) =~= self.produced@ + x);
                        }
                    } else {
                        assert(self.buf@ + f =~= before.buf@ + pf);
                    }
                }
            }
            pos = pos + take;
        }
        assert(data@.take(data@.len() as int) =~= data@);
        Ok(out)
    }

    /// The body has ended: open what is buffered as the last segment. After
    /// a successful finish, everything produced is the plaintext of the
    /// stream; an error means the stream does not authenticate (a segment
    /// altered, or the last one missing).
    pub fn finish(&mut self) -> (r: Result<Vec<u8>, TinkError>)
        requires
            old(self).inv(),
        ensures
            old(self).is_done() ==> r is Err && r->Err_0.kind == ErrorKind::Internal,
            final(self).is_done(),
            r is Ok ==> stream_plaintext(old(self).params(), old(self).header() + old(self).consumed(), old(self).aad())
                == Some(old(self).produced() + r->Ok_0@),
            r is Err && !old(self).is_done() ==> r->Err_0.kind == ErrorKind::InvalidCiphertext
                && stream_plaintext(old(self).params(), old(self).header() + old(self).consumed(), old(self).aad()) is None,
    {
        if self.done {
            return Err(TinkError::new(ErrorKind::Internal, "read past the end of the stream"));
        }
        proof {
            assert(self.body_of(Seq::empty()) == prepend(self.produced@, self.rest_of(Seq::empty())));
            assert(self.consumed@ + Seq::<u8>::empty() =~= self.consumed@);
            assert(self.buf@ + Seq::<u8>::empty() =~= self.buf@);
            lemma_open_last(self.key@, self.nonce_prefix@, self.buf@, self.cap as nat, self.segment_size as nat, self.counter as nat);
        }
        self.done = true;
        let nonce = segment_nonce_bytes(self.nonce_prefix.as_slice(), self.counter, true);
        match open_segment(self.key.as_slice(), nonce.as_slice(), self.buf.as_slice()) {
            Some(p) => Ok(p),
            None => Err(TinkError::new(ErrorKind::InvalidCiphertext, "stream does not authenticate")),
        }
    }
}

} // verus!
