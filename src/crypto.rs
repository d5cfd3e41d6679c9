//! The outside cryptographic primitives: HKDF and AES-GCM.
//!
//! Their outputs take pages to define, so each is given a name here and the
//! rest of the library speaks of those names.
use vstd::prelude::*;
use aes_gcm::aead::Aead;
use aes_gcm::KeyInit;
use hkdf::Hkdf;
use rand::RngCore;

verus! {

/// HKDF-SHA1 output of `len` bytes.
pub uninterp spec fn hkdf_sha1_of(ikm: Seq<u8>, salt: Seq<u8>, info: Seq<u8>, len: nat) -> Seq<u8>;

/// HKDF-SHA256 output of `len` bytes.
pub uninterp spec fn hkdf_sha256_of(ikm: Seq<u8>, salt: Seq<u8>, info: Seq<u8>, len: nat) -> Seq<u8>;

/// HKDF-SHA224 output of `len` bytes.
pub uninterp spec fn hkdf_sha224_of(ikm: Seq<u8>, salt: Seq<u8>, info: Seq<u8>, len: nat) -> Seq<u8>;

/// HKDF-SHA384 output of `len` bytes.
pub uninterp spec fn hkdf_sha384_of(ikm: Seq<u8>, salt: Seq<u8>, info: Seq<u8>, len: nat) -> Seq<u8>;

/// HKDF-SHA512 output of `len` bytes.
pub uninterp spec fn hkdf_sha512_of(ikm: Seq<u8>, salt: Seq<u8>, info: Seq<u8>, len: nat) -> Seq<u8>;

/// AES-128-GCM ciphertext and tag, with empty associated data.
pub uninterp spec fn aes128_gcm_seal_of(key: Seq<u8>, nonce: Seq<u8>, pt: Seq<u8>) -> Seq<u8>;

/// AES-256-GCM ciphertext and tag, with empty associated data.
pub uninterp spec fn aes256_gcm_seal_of(key: Seq<u8>, nonce: Seq<u8>, pt: Seq<u8>) -> Seq<u8>;

/// AES-128-GCM decryption with empty associated data; `None` when the tag does not verify.
pub uninterp spec fn aes128_gcm_open_of(key: Seq<u8>, nonce: Seq<u8>, ct: Seq<u8>) -> Option<Seq<u8>>;

/// AES-256-GCM decryption with empty associated data; `None` when the tag does not verify.
pub uninterp spec fn aes256_gcm_open_of(key: Seq<u8>, nonce: Seq<u8>, ct: Seq<u8>) -> Option<Seq<u8>>;

/// Longest plaintext that AES-GCM accepts, in bytes.
pub const GCM_MAX_PLAINTEXT: u64 = 68719476736;

/// Relies on hkdf::Hkdf::<Sha1>::new and expand: extract with `salt`, expand
/// with `info` into `len` bytes; expand fails only beyond 255 hash lengths.
#[verifier::external_body]
pub(crate) fn hkdf_sha1(ikm: &[u8], salt: &[u8], info: &[u8], len: usize) -> (r: Option<Vec<u8>>)
    ensures
        len <= 255 * 20 ==> r is Some,
        r is Some ==> r->Some_0@ == hkdf_sha1_of(ikm@, salt@, info@, len as nat),
        r is Some ==> r->Some_0@.len() == len,
{
    let mut okm = vec![0u8; len];
    match Hkdf::<sha1::Sha1>::new(Some(salt), ikm).expand(info, &mut okm) {
        Ok(()) => Some(okm),
        Err(_) => None,
    }
}

/// Relies on hkdf::Hkdf::<Sha256>::new and expand, as for SHA-1.
#[verifier::external_body]
pub(crate) fn hkdf_sha256(ikm: &[u8], salt: &[u8], info: &[u8], len: usize) -> (r: Option<Vec<u8>>)
    ensures
        len <= 255 * 32 ==> r is Some,
        r is Some ==> r->Some_0@ == hkdf_sha256_of(ikm@, salt@, info@, len as nat),
        r is Some ==> r->Some_0@.len() == len,
{
    let mut okm = vec![0u8; len];
    match Hkdf::<sha2::Sha256>::new(Some(salt), ikm).expand(info, &mut okm) {
        Ok(()) => Some(okm),
        Err(_) => None,
    }
}

/// Relies on hkdf::Hkdf::<Sha224>::new and expand, as for SHA-1.
#[verifier::external_body]
pub(crate) fn hkdf_sha224(ikm: &[u8], salt: &[u8], info: &[u8], len: usize) -> (r: Option<Vec<u8>>)
    ensures
        len <= 255 * 28 ==> r is Some,
        r is Some ==> r->Some_0@ == hkdf_sha224_of(ikm@, salt@, info@, len as nat),
        r is Some ==> r->Some_0@.len() == len,
{
    let mut okm = vec![0u8; len];
    match Hkdf::<sha2::Sha224>::new(Some(salt), ikm).expand(info, &mut okm) {
        Ok(()) => Some(okm),
        Err(_) => None,
    }
}

/// Relies on hkdf::Hkdf::<Sha384>::new and expand, as for SHA-1.
#[verifier::external_body]
pub(crate) fn hkdf_sha384(ikm: &[u8], salt: &[u8], info: &[u8], len: usize) -> (r: Option<Vec<u8>>)
    ensures
        len <= 255 * 48 ==> r is Some,
        r is Some ==> r->Some_0@ == hkdf_sha384_of(ikm@, salt@, info@, len as nat),
        r is Some ==> r->Some_0@.len() == len,
{
    let mut okm = vec![0u8; len];
    match Hkdf::<sha2::Sha384>::new(Some(salt), ikm).expand(info, &mut okm) {
        Ok(()) => Some(okm),
        Err(_) => None,
    }
}

/// Relies on hkdf::Hkdf::<Sha512>::new and expand, as for SHA-1.
#[verifier::external_body]
pub(crate) fn hkdf_sha512(ikm: &[u8], salt: &[u8], info: &[u8], len: usize) -> (r: Option<Vec<u8>>)
    ensures
        len <= 255 * 64 ==> r is Some,
        r is Some ==> r->Some_0@ == hkdf_sha512_of(ikm@, salt@, info@, len as nat),
        r is Some ==> r->Some_0@.len() == len,
{
    let mut okm = vec![0u8; len];
    match Hkdf::<sha2::Sha512>::new(Some(salt), ikm).expand(info, &mut okm) {
        Ok(()) => Some(okm),
        Err(_) => None,
    }
}

/// Relies on aes_gcm::Aes128Gcm's Aead::encrypt: the plaintext encrypted and
/// followed by a 16-byte tag, which decryption under the same key and nonce
/// opens again; it fails only on plaintexts over 2^36 bytes.
#[verifier::external_body]
pub(crate) fn aes128_gcm_seal(key: &[u8], nonce: &[u8], pt: &[u8]) -> (r: Option<Vec<u8>>)
    requires
        key@.len() == 16,
        nonce@.len() == 12,
    ensures
        pt@.len() <= GCM_MAX_PLAINTEXT ==> r is Some,
        r is Some ==> r->Some_0@ == aes128_gcm_seal_of(key@, nonce@, pt@),
        r is Some ==> r->Some_0@.len() == pt@.len() + 16,
        r is Some ==> aes128_gcm_open_of(key@, nonce@, r->Some_0@) == Some(pt@),
{
    let cipher = aes_gcm::Aes128Gcm::new(aes_gcm::Key::<aes_gcm::Aes128Gcm>::from_slice(key));
    cipher.encrypt(aes_gcm::Nonce::from_slice(nonce), pt).ok()
}

/// Relies on aes_gcm::Aes256Gcm's Aead::encrypt, as for AES-128.
#[verifier::external_body]
pub(crate) fn aes256_gcm_seal(key: &[u8], nonce: &[u8], pt: &[u8]) -> (r: Option<Vec<u8>>)
    requires
        key@.len() == 32,
        nonce@.len() == 12,
    ensures
        pt@.len() <= GCM_MAX_PLAINTEXT ==> r is Some,
        r is Some ==> r->Some_0@ == aes256_gcm_seal_of(key@, nonce@, pt@),
        r is Some ==> r->Some_0@.len() == pt@.len() + 16,
        r is Some ==> aes256_gcm_open_of(key@, nonce@, r->Some_0@) == Some(pt@),
{
    let cipher = aes_gcm::Aes256Gcm::new(aes_gcm::Key::<aes_gcm::Aes256Gcm>::from_slice(key));
    cipher.encrypt(aes_gcm::Nonce::from_slice(nonce), pt).ok()
}

/// Relies on aes_gcm::Aes128Gcm's Aead::decrypt: the plaintext when the tag
/// verifies; what the encryption under the same key and nonce produced opens
/// to its plaintext.
#[verifier::external_body]
pub(crate) fn aes128_gcm_open(key: &[u8], nonce: &[u8], ct: &[u8]) -> (r: Option<Vec<u8>>)
    requires
        key@.len() == 16,
        nonce@.len() == 12,
    ensures
        r is Some <==> aes128_gcm_open_of(key@, nonce@, ct@) is Some,
        r is Some ==> r->Some_0@ == aes128_gcm_open_of(key@, nonce@, ct@)->Some_0,
        forall|p: Seq<u8>|
            p.len() <= GCM_MAX_PLAINTEXT && ct@ == #[trigger] aes128_gcm_seal_of(key@, nonce@, p)
                ==> r is Some && r->Some_0@ == p,
{
    let cipher = aes_gcm::Aes128Gcm::new(aes_gcm::Key::<aes_gcm::Aes128Gcm>::from_slice(key));
    cipher.decrypt(aes_gcm::Nonce::from_slice(nonce), ct).ok()
}

/// Relies on aes_gcm::Aes256Gcm's Aead::decrypt, as for AES-128.
#[verifier::external_body]
pub(crate) fn aes256_gcm_open(key: &[u8], nonce: &[u8], ct: &[u8]) -> (r: Option<Vec<u8>>)
    requires
        key@.len() == 32,
        nonce@.len() == 12,
    ensures
        r is Some <==> aes256_gcm_open_of(key@, nonce@, ct@) is Some,
        r is Some ==> r->Some_0@ == aes256_gcm_open_of(key@, nonce@, ct@)->Some_0,
        forall|p: Seq<u8>|
            p.len() <= GCM_MAX_PLAINTEXT && ct@ == #[trigger] aes256_gcm_seal_of(key@, nonce@, p)
                ==> r is Some && r->Some_0@ == p,
{
    let cipher = aes_gcm::Aes256Gcm::new(aes_gcm::Key::<aes_gcm::Aes256Gcm>::from_slice(key));
    cipher.decrypt(aes_gcm::Nonce::from_slice(nonce), ct).ok()
}

/// Relies on rand::thread_rng and RngCore::fill_bytes: `n` bytes from the
/// thread-local cryptographically secure generator.
#[verifier::external_body]
pub(crate) fn random_bytes(n: usize) -> (r: Vec<u8>)
    ensures
        r@.len() == n,
{
    let mut v = vec![0u8; n];
    rand::thread_rng().fill_bytes(&mut v);
    v
}

/// Relies on rand::random: a uniformly drawn 32-bit value.
#[verifier::external_body]
pub(crate) fn random_u32() -> u32 {
    rand::random::<u32>()
}

} // verus!
