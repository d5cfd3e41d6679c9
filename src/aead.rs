//! The AEAD over a primitive set: ciphertexts carry the output prefix of
//! the key that made them, and decryption picks candidate keys by it.
use vstd::prelude::*;
use vstd::slice::slice_subrange;
use crate::error::{ErrorKind, TinkError};
use crate::handle::{Aead, PrimitiveSet};

verus! {

/// Length of a non-empty output prefix.
pub const PREFIX_SIZE: usize = 5;

/// Entry `i` may have made `ct`: its prefix starts `ct`, or it has none.
pub open spec fn candidate<A>(ps: PrimitiveSet<A>, i: int, ct: Seq<u8>) -> bool {
    ps.entries@[i].prefix@.len() == 0 || (ct.len() > PREFIX_SIZE && ps.entries@[i].prefix@ == ct.take(
        PREFIX_SIZE as int,
    ))
}

/// Encrypts with the primary entry and decrypts with any entry whose prefix
/// matches.
pub struct WrappedAead<A: Aead> {
    ps: PrimitiveSet<A>,
}

impl<A: Aead> View for WrappedAead<A> {
    type V = PrimitiveSet<A>;

    closed spec fn view(&self) -> PrimitiveSet<A> {
        self.ps
    }
}

impl<A: Aead> WrappedAead<A> {
    /// Wrap a primitive set; it needs a primary entry.
    pub fn new(ps: PrimitiveSet<A>) -> (r: Result<WrappedAead<A>, TinkError>)
        ensures
            r is Ok <==> ps.primary is Some && ps.primary->Some_0 < ps.entries@.len(),
            r is Ok ==> r->Ok_0@ == ps,
            r is Err ==> r->Err_0.kind == ErrorKind::InvalidArgument,
    {
        match ps.primary {
            Some(p) => {
                if p < ps.entries.len() {
                    return Ok(WrappedAead { ps });
                }
            },
            None => {},
        }
        Err(TinkError::new(ErrorKind::InvalidArgument, "aead::WrappedAead: no primary entry"))
    }

    /// Encrypt with the primary entry; the ciphertext starts with its prefix.
    pub fn encrypt(&self, pt: &[u8], aad: &[u8]) -> (r: Result<Vec<u8>, TinkError>)
        requires
            self@.primary is Some && self@.primary->Some_0 < self@.entries@.len(),
        ensures
            r is Ok ==> {
                let prefix = self@.entries@[self@.primary->Some_0 as int].prefix@;
                r->Ok_0@.len() >= prefix.len() && r->Ok_0@.take(prefix.len() as int) == prefix
            },
    {
        let p = match self.ps.primary {
            Some(p) => p,
            None => {
                return Err(TinkError::new(ErrorKind::Internal, "aead::WrappedAead: no primary entry"));
            },
        };
        let entry = &self.ps.entries[p];
        let ct = match entry.primitive.encrypt(pt, aad) {
            Ok(c) => c,
            Err(e) => {
                return Err(e);
            },
        };
        let mut out: Vec<u8> = Vec::new();
        out.extend_from_slice(entry.prefix.as_slice());
        out.extend_from_slice(ct.as_slice());
        assert(out@.take(entry.prefix@.len() as int) =~= entry.prefix@);
        Ok(out)
    }

    /// Decrypt with the entries whose prefix starts `ct`, in order, then with
    /// those that have no prefix. When none succeeds the ciphertext is invalid.
    pub fn decrypt(&self, ct: &[u8], aad: &[u8]) -> (r: Result<Vec<u8>, TinkError>)
        ensures
            r is Ok ==> exists|i: int| 0 <= i < self@.entries@.len() && candidate(self@, i, ct@),
            r is Err ==> r->Err_0.kind == ErrorKind::InvalidCiphertext,
    {
        if ct.len() > PREFIX_SIZE {
            let prefix = slice_subrange(ct, 0, PREFIX_SIZE);
            let body = slice_subrange(ct, PREFIX_SIZE, ct.len());
            let ids = self.ps.entries_for_prefix(prefix);
            let mut k: usize = 0;
            while k < ids.len()
                invariant
                    0 <= k <= ids@.len(),
                    ct@.len() > PREFIX_SIZE,
                    prefix@ == ct@.take(PREFIX_SIZE as int),
                    forall|i: int| 0 <= i < ids@.len() ==> {
                        &&& (#[trigger] ids@[i]) < self.ps.entries@.len()
                        &&& self.ps.entries@[ids@[i] as int].prefix@ == prefix@
                    },
                decreases ids@.len() - k,
            {
                let i = ids[k];
                match self.ps.entries[i].primitive.decrypt(body, aad) {
                    Ok(p) => {
                        assert(candidate(self@, i as int, ct@));
                        return Ok(p);
                    },
                    Err(_) => {},
                }
                k += 1;
            }
        }
        let raw = self.ps.entries_for_prefix(&[]);
        let mut k: usize = 0;
        while k < raw.len()
            invariant
                0 <= k <= raw@.len(),
                forall|i: int| 0 <= i < raw@.len() ==> {
                    &&& (#[trigger] raw@[i]) < self.ps.entries@.len()
                    &&& self.ps.entries@[raw@[i] as int].prefix@ == Seq::<u8>::empty()
                },
            decreases raw@.len() - k,
        {
            let i = raw[k];
            match self.ps.entries[i].primitive.decrypt(ct, aad) {
                Ok(p) => {
                    assert(candidate(self@, i as int, ct@));
                    return Ok(p);
                },
                Err(_) => {},
            }
            k += 1;
        }
        Err(TinkError::new(ErrorKind::InvalidCiphertext, "aead::WrappedAead: decryption failed"))
    }
}

} // verus!
