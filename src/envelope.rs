//! Envelope encryption: a fresh data key per message, sealed under a remote
//! key-encryption key and sent in front of the payload.
use vstd::prelude::*;
use vstd::slice::{slice_subrange, slice_to_vec};
use crate::error::{ErrorKind, TinkError};
use crate::handle::{Aead, KeyManager};
use crate::proto::KeyTemplate;
use crate::streaming::be32;

verus! {

/// Length of the prefix that gives the size of the sealed data key.
pub const LEN_DEK: usize = 4;

/// The number a 4-byte big-endian prefix stands for.
pub open spec fn be32_value(b: Seq<u8>) -> nat {
    (b[0] as nat) * 0x1000000 + (b[1] as nat) * 0x10000 + (b[2] as nat) * 0x100 + (b[3] as nat)
}

/// The envelope: the sealed data key's length, the sealed data key, the payload.
pub open spec fn envelope(dek_ct: Seq<u8>, payload: Seq<u8>) -> Seq<u8> {
    be32(dek_ct.len()) + dek_ct + payload
}

/// `ct` is long enough for its prefix, and the prefix does not run past its end.
pub open spec fn envelope_ok(ct: Seq<u8>) -> bool {
    ct.len() >= 4 && be32_value(ct.take(4)) <= ct.len() - 4
}

/// The sealed data key of a well-formed envelope.
pub open spec fn envelope_dek(ct: Seq<u8>) -> Seq<u8> {
    ct.subrange(4, 4 + be32_value(ct.take(4)) as int)
}

/// The payload of a well-formed envelope.
pub open spec fn envelope_payload(ct: Seq<u8>) -> Seq<u8> {
    ct.skip(4 + be32_value(ct.take(4)) as int)
}

proof fn lemma_be32_value(n: nat)
    requires
        n <= u32::MAX,
    ensures
        be32_value(be32(n)) == n,
{
    let b = be32(n);
    let a0 = n / 0x1000000;
    let a1 = (n / 0x10000) % 256;
    let a2 = (n / 0x100) % 256;
    let a3 = n % 256;
    assert(a0 < 256) by (nonlinear_arith)
        requires
            n <= u32::MAX,
            a0 == n / 0x1000000,
    ;
    assert(b[0] as nat == a0);
    assert(b[1] as nat == a1);
    assert(b[2] as nat == a2);
    assert(b[3] as nat == a3);
    assert(a0 * 0x1000000 + a1 * 0x10000 + a2 * 0x100 + a3 == n) by (nonlinear_arith)
        requires
            a0 == n / 0x1000000,
            a1 == (n / 0x10000) % 256,
            a2 == (n / 0x100) % 256,
            a3 == n % 256,
    {
        assert(n / 0x10000 == a0 * 256 + a1);
        assert(n / 0x100 == (n / 0x10000) * 256 + a2);
        assert(n == (n / 0x100) * 256 + a3);
    }
}

/// A framed envelope splits back into the sealed data key and the payload.
pub proof fn lemma_envelope_round_trip(dek_ct: Seq<u8>, payload: Seq<u8>)
    requires
        dek_ct.len() <= u32::MAX,
    ensures
        envelope_ok(envelope(dek_ct, payload)),
        envelope_dek(envelope(dek_ct, payload)) == dek_ct,
        envelope_payload(envelope(dek_ct, payload)) == payload,
{
    let e = envelope(dek_ct, payload);
    lemma_be32_value(dek_ct.len());
    assert(e.take(4) =~= be32(dek_ct.len()));
    assert(e.subrange(4, 4 + dek_ct.len() as int) =~= dek_ct);
    assert(e.skip(4 + dek_ct.len() as int) =~= payload);
}

/// Frame a sealed data key and a payload; refused when the key is too long
/// for its prefix.
pub fn frame_envelope(dek_ct: &[u8], payload: &[u8]) -> (r: Result<Vec<u8>, TinkError>)
    ensures
        r is Ok <==> dek_ct@.len() <= u32::MAX,
        r is Ok ==> r->Ok_0@ == envelope(dek_ct@, payload@),
        r is Err ==> r->Err_0.kind == ErrorKind::InvalidArgument,
{
    if dek_ct.len() > u32::MAX as usize {
        return Err(TinkError::new(ErrorKind::InvalidArgument, "kms_envelope_aead: encrypted DEK too long"));
    }
    let n = dek_ct.len() as u32;
    let mut out: Vec<u8> = Vec::new();
    out.push((n / 0x1000000) as u8);
    out.push(((n / 0x10000) % 256) as u8);
    out.push(((n / 0x100) % 256) as u8);
    out.push((n % 256) as u8);
    out.extend_from_slice(dek_ct);
    out.extend_from_slice(payload);
    assert(out@ =~= envelope(dek_ct@, payload@));
    Ok(out)
}

/// Split an envelope into the sealed data key and the payload.
pub fn split_envelope(ct: &[u8]) -> (r: Result<(Vec<u8>, Vec<u8>), TinkError>)
    ensures
        r is Ok <==> envelope_ok(ct@),
        r is Ok ==> r->Ok_0.0@ == envelope_dek(ct@) && r->Ok_0.1@ == envelope_payload(ct@),
        r is Err ==> r->Err_0.kind == ErrorKind::InvalidCiphertext,
{
    if ct.len() < LEN_DEK {
        return Err(TinkError::new(ErrorKind::InvalidCiphertext, "kms_envelope_aead: ciphertext too short"));
    }
    let n: u64 = (ct[0] as u64) * 0x1000000 + (ct[1] as u64) * 0x10000 + (ct[2] as u64) * 0x100 + (ct[3] as u64);
    assert(n == be32_value(ct@.take(4)));
    if n > (ct.len() - LEN_DEK) as u64 {
        return Err(TinkError::new(ErrorKind::InvalidCiphertext, "kms_envelope_aead: length of encrypted DEK too large"));
    }
    let end = LEN_DEK + n as usize;
    let dek = slice_to_vec(slice_subrange(ct, LEN_DEK, end));
    let payload = slice_to_vec(slice_subrange(ct, end, ct.len()));
    assert(payload@ =~= envelope_payload(ct@));
    Ok((dek, payload))
}

/// Envelope AEAD: each message gets a fresh data key made from
/// `dek_template`, sealed under the remote key `remote`.
pub struct KmsEnvelopeAead<K: Aead> {
    pub dek_template: KeyTemplate,
    pub remote: K,
}

impl<K: Aead> KmsEnvelopeAead<K> {
    pub fn new(dek_template: KeyTemplate, remote: K) -> (r: KmsEnvelopeAead<K>)
        ensures
            r.dek_template == dek_template,
            r.remote == remote,
    {
        KmsEnvelopeAead { dek_template, remote }
    }

    /// Seal `pt` with a fresh data key from `registry`, and the data key
    /// under the remote key. The result is an envelope.
    pub fn encrypt<A: Aead, M: KeyManager<A>>(&self, registry: &M, pt: &[u8], aad: &[u8]) -> (r: Result<Vec<u8>, TinkError>)
        ensures
            r is Ok ==> envelope_ok(r->Ok_0@),
    {
        if !registry.does_support(self.dek_template.type_url.as_str()) {
            return Err(TinkError::new(ErrorKind::NotFound, "kms_envelope_aead: no key manager for the DEK template"));
        }
        let dek = match registry.new_key_data(self.dek_template.value.as_slice()) {
            Ok(d) => d,
            Err(e) => {
                return Err(e);
            },
        };
        let encrypted_dek = match self.remote.encrypt(dek.value.as_slice(), &[]) {
            Ok(c) => c,
            Err(e) => {
                return Err(e);
            },
        };
        let primitive = match registry.primitive(dek.value.as_slice()) {
            Ok(p) => p,
            Err(e) => {
                return Err(e);
            },
        };
        let payload = match primitive.encrypt(pt, aad) {
            Ok(c) => c,
            Err(e) => {
                return Err(e);
            },
        };
        let r = frame_envelope(encrypted_dek.as_slice(), payload.as_slice());
        proof {
            if r is Ok {
                lemma_envelope_round_trip(encrypted_dek@, payload@);
            }
        }
        r
    }

    /// Open an envelope: the data key under the remote key, then the payload
    /// under the data key. A malformed envelope is `InvalidCiphertext`.
    pub fn decrypt<A: Aead, M: KeyManager<A>>(&self, registry: &M, ct: &[u8], aad: &[u8]) -> (r: Result<Vec<u8>, TinkError>)
        ensures
            !envelope_ok(ct@) ==> r is Err && r->Err_0.kind == ErrorKind::InvalidCiphertext,
    {
        let (encrypted_dek, payload) = match split_envelope(ct) {
            Ok(parts) => parts,
            Err(e) => {
                return Err(e);
            },
        };
        let dek = match self.remote.decrypt(encrypted_dek.as_slice(), &[]) {
            Ok(d) => d,
            Err(_) => {
                return Err(TinkError::new(ErrorKind::InvalidCiphertext, "kms_envelope_aead: DEK does not decrypt"));
            },
        };
        if !registry.does_support(self.dek_template.type_url.as_str()) {
            return Err(TinkError::new(ErrorKind::NotFound, "kms_envelope_aead: no key manager for the DEK template"));
        }
        let primitive = match registry.primitive(dek.as_slice()) {
            Ok(p) => p,
            Err(_) => {
                return Err(TinkError::new(ErrorKind::InvalidCiphertext, "kms_envelope_aead: invalid DEK"));
            },
        };
        match primitive.decrypt(payload.as_slice(), aad) {
            Ok(p) => Ok(p),
            Err(_) => Err(TinkError::new(ErrorKind::InvalidCiphertext, "kms_envelope_aead: payload does not decrypt")),
        }
    }
}

} // verus!
