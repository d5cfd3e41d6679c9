//! The keyset handle: gatekeeper for export, import and primitive sets.
use vstd::prelude::*;
use vstd::utf8::encode_utf8;
use crate::manager::Manager;
use crate::error::{ErrorKind, TinkError};
use crate::keyset::{create_output_prefix, output_prefix, valid_keyset, validate};
use crate::proto::{
    EncryptedKeyset, Key, KeyData, KeyInfo, KeyMaterialType, KeyStatusType, KeyTemplate, Keyset,
    KeysetInfo, OutputPrefixType,
};
use crate::wire::{
    lemma_field_first_byte, bytes_field, delimited, put_bytes_field, put_delimited, put_uint_field, read_bytes_field,
    read_delimited, read_uint_field, starts_with, string_from_utf8, uint_field,
};
use vstd::slice::{slice_subrange, slice_to_vec};

verus! {

/// Key generation, parsing and private-to-public derivation for the key
/// types a caller supports; `P` is the primitive it builds.
pub trait KeyManager<P> {
    /// Build a primitive from a serialized key.
    fn primitive(&self, serialized_key: &[u8]) -> Result<P, TinkError>;

    /// Make fresh key data from a serialized key format.
    fn new_key_data(&self, serialized_format: &[u8]) -> Result<KeyData, TinkError>;

    /// Whether keys of this type URL are handled here.
    fn does_support(&self, type_url: &str) -> bool;

    /// Whether private keys are handled, so that `public_key_data` applies.
    fn supports_private_keys(&self) -> bool;

    /// The public key data for a serialized private key.
    fn public_key_data(&self, serialized_priv_key: &[u8]) -> Result<KeyData, TinkError>;
}

/// A source of keysets.
pub trait Reader {
    fn read(&mut self) -> Result<Keyset, TinkError>;

    fn read_encrypted(&mut self) -> Result<EncryptedKeyset, TinkError>;
}

/// A sink for keysets.
pub trait Writer {
    fn write(&mut self, keyset: &Keyset) -> Result<(), TinkError>;

    fn write_encrypted(&mut self, keyset: &EncryptedKeyset) -> Result<(), TinkError>;
}

/// Authenticated encryption with associated data, as used for master keys.
pub trait Aead {
    fn encrypt(&self, plaintext: &[u8], associated_data: &[u8]) -> Result<Vec<u8>, TinkError>;

    fn decrypt(&self, ciphertext: &[u8], associated_data: &[u8]) -> Result<Vec<u8>, TinkError>;
}

/// Whether key `k` carries secret material.
pub open spec fn key_is_secret(k: Key) -> bool {
    k.key_data is Some && k.key_data->Some_0.key_material_type.spec_is_secret()
}

/// Whether key `k` carries private asymmetric key data.
pub open spec fn key_is_private(k: Key) -> bool {
    k.key_data is Some && k.key_data->Some_0.key_material_type == KeyMaterialType::AsymmetricPrivate
}

/// Whether any key of the keyset carries secret material.
pub open spec fn has_secrets(ks: Keyset) -> bool {
    exists|i: int| 0 <= i < ks.key@.len() && key_is_secret(#[trigger] ks.key@[i])
}

/// Encoding of a key-data record.
pub open spec fn key_data_bytes(kd: KeyData) -> Seq<u8> {
    bytes_field(1, encode_utf8(kd.type_url@)) + bytes_field(2, kd.value@)
        + uint_field(3, kd.key_material_type.spec_value() as nat)
}

/// Encoding of one key.
pub open spec fn key_bytes(k: Key) -> Seq<u8> {
    (match k.key_data {
        Some(kd) => delimited(1, key_data_bytes(kd)),
        None => Seq::empty(),
    }) + uint_field(2, k.status.spec_value() as nat) + uint_field(3, k.key_id as nat)
        + uint_field(4, k.output_prefix_type.spec_value() as nat)
}

/// Encoding of a list of keys, each as a repeated field.
pub open spec fn keys_bytes(keys: Seq<Key>) -> Seq<u8>
    decreases keys.len(),
{
    if keys.len() == 0 {
        Seq::empty()
    } else {
        keys_bytes(keys.drop_last()) + delimited(2, key_bytes(keys.last()))
    }
}

/// Encoding of a keyset.
pub open spec fn keyset_bytes(ks: Keyset) -> Seq<u8> {
    uint_field(1, ks.primary_key_id as nat) + keys_bytes(ks.key@)
}

/// `info` is the redacted summary of key `k`: its type URL (empty for a key
/// without key data), status, id and prefix policy.
pub open spec fn is_key_info_of(info: KeyInfo, k: Key) -> bool {
    &&& info.type_url@ == (if k.key_data is Some { k.key_data->Some_0.type_url@ } else { Seq::<char>::empty() })
    &&& info.status == k.status
    &&& info.key_id == k.key_id
    &&& info.output_prefix_type == k.output_prefix_type
}

/// `info` is the redacted summary of `ks`.
pub open spec fn is_keyset_info_of(info: KeysetInfo, ks: Keyset) -> bool {
    &&& info.primary_key_id == ks.primary_key_id
    &&& info.key_info@.len() == ks.key@.len()
    &&& forall|i: int|
        0 <= i < ks.key@.len() ==> is_key_info_of(#[trigger] info.key_info@[i], ks.key@[i])
}

/// `p` is `k` with other key data in place of its own.
pub open spec fn same_but_data(p: Key, k: Key) -> bool {
    &&& p.status == k.status
    &&& p.key_id == k.key_id
    &&& p.output_prefix_type == k.output_prefix_type
    &&& p.key_data is Some
}

/// The enabled keys, in order.
pub open spec fn enabled_keys(keys: Seq<Key>) -> Seq<Key>
    decreases keys.len(),
{
    if keys.len() == 0 {
        Seq::empty()
    } else if keys.last().status == KeyStatusType::Enabled {
        enabled_keys(keys.drop_last()).push(keys.last())
    } else {
        enabled_keys(keys.drop_last())
    }
}

/// `e` was made from key `k`.
pub open spec fn entry_of<P>(e: Entry<P>, k: Key) -> bool {
    &&& e.key_id == k.key_id
    &&& e.status == k.status
    &&& e.prefix_type == k.output_prefix_type
    &&& e.prefix@ == output_prefix(k.output_prefix_type, k.key_id)
    &&& k.key_data is Some
    &&& e.type_url@ == k.key_data->Some_0.type_url@
}

/// `ps` holds one entry for each enabled key of `ks`, in order, and its
/// primary is the entry of the primary key.
pub open spec fn is_primitive_set_of<P>(ps: PrimitiveSet<P>, ks: Keyset) -> bool {
    let en = enabled_keys(ks.key@);
    &&& ps.entries@.len() == en.len()
    &&& forall|j: int| 0 <= j < en.len() ==> entry_of(#[trigger] ps.entries@[j], en[j])
    &&& ps.primary is Some
    &&& ps.primary->Some_0 < ps.entries@.len()
    &&& ps.entries@[ps.primary->Some_0 as int].key_id == ks.primary_key_id
}

/// One primitive of a set, with what identifies its key.
pub struct Entry<P> {
    pub primitive: P,
    pub key_id: u32,
    pub status: KeyStatusType,
    pub prefix_type: OutputPrefixType,
    pub prefix: Vec<u8>,
    pub type_url: String,
}

/// The primitives of a keyset's enabled keys, in keyset order, with the
/// index of the primary's entry.
pub struct PrimitiveSet<P> {
    pub entries: Vec<Entry<P>>,
    pub primary: Option<usize>,
}

impl<P> PrimitiveSet<P> {
    /// The indices of the entries whose prefix is `prefix`, in insertion order.
    pub fn entries_for_prefix(&self, prefix: &[u8]) -> (r: Vec<usize>)
        ensures
            forall|i: int| 0 <= i < r@.len() ==> {
                &&& (#[trigger] r@[i]) < self.entries@.len()
                &&& self.entries@[r@[i] as int].prefix@ == prefix@
            },
            forall|j: int|
                0 <= j < self.entries@.len() && self.entries@[j].prefix@ == prefix@ ==> r@.contains(
                    j as usize,
                ),
            forall|a: int, b: int| 0 <= a < b < r@.len() ==> r@[a] < r@[b],
    {
        let mut r: Vec<usize> = Vec::new();
        let mut j: usize = 0;
        while j < self.entries.len()
            invariant
                0 <= j <= self.entries@.len(),
                forall|i: int| 0 <= i < r@.len() ==> {
                    &&& (#[trigger] r@[i]) < j
                    &&& self.entries@[r@[i] as int].prefix@ == prefix@
                },
                forall|k: int|
                    0 <= k < j && self.entries@[k].prefix@ == prefix@ ==> r@.contains(k as usize),
                forall|a: int, b: int| 0 <= a < b < r@.len() ==> r@[a] < r@[b],
            decreases self.entries@.len() - j,
        {
            let ghost before = r@;
            if bytes_eq(self.entries[j].prefix.as_slice(), prefix) {
                r.push(j);
                proof {
                    assert(r@[r@.len() - 1] == j);
                }
            }
            proof {
                assert forall|k: int|
                    0 <= k < j + 1 && self.entries@[k].prefix@ == prefix@ implies r@.contains(
                    k as usize,
                ) by {
                    if k == j {
                        assert(r@[r@.len() - 1] == j);
                    } else {
                        let w = choose|w: int| 0 <= w < before.len() && before[w] == k as usize;
                        assert(r@[w] == k as usize);
                    }
                }
            }
            j += 1;
        }
        r
    }
}

/// Byte-wise equality of two slices.
pub fn bytes_eq(a: &[u8], b: &[u8]) -> (r: bool)
    ensures
        r <==> a@ == b@,
{
    if a.len() != b.len() {
        return false;
    }
    let mut i: usize = 0;
    while i < a.len()
        invariant
            a@.len() == b@.len(),
            0 <= i <= a@.len(),
            forall|k: int| 0 <= k < i ==> a@[k] == b@[k],
        decreases a@.len() - i,
    {
        if a[i] != b[i] {
            return false;
        }
        i += 1;
    }
    assert(a@ =~= b@);
    true
}

/// Holds a keyset and limits what leaves it.
pub struct Handle {
    ks: Keyset,
}

impl View for Handle {
    type V = Keyset;

    closed spec fn view(&self) -> Keyset {
        self.ks
    }
}

impl Handle {
    /// A handle over a keyset already known to be valid.
    pub(crate) fn from_valid_keyset(ks: Keyset) -> (h: Handle)
        requires
            valid_keyset(ks),
        ensures
            h@ == ks,
    {
        Handle { ks }
    }

    /// A handle over a keyset with a single fresh key made from `kt` by `km`,
    /// under a random non-zero id; that key is the primary.
    pub fn new<P, M: KeyManager<P>>(kt: &KeyTemplate, km: &M) -> (r: Result<Handle, TinkError>)
        ensures
            kt.output_prefix_type == OutputPrefixType::UnknownPrefix ==> r is Err,
            r is Ok ==> {
                let ks = r->Ok_0@;
                &&& valid_keyset(ks)
                &&& ks.key@.len() == 1
                &&& ks.key@[0].key_id == ks.primary_key_id
                &&& ks.key@[0].status == KeyStatusType::Enabled
                &&& ks.key@[0].output_prefix_type == kt.output_prefix_type
                &&& ks.key@[0].key_data is Some
            },
    {
        let mut ksm = Manager::new();
        match ksm.rotate(kt, km) {
            Ok(()) => {},
            Err(e) => {
                return Err(e);
            },
        }
        proof {
            assert(ksm@.key@[0] == ksm@.key@.last());
        }
        ksm.handle()
    }

    /// A handle over a keyset with a single fresh key made from `kt` by `km`,
    /// under id `key_id`, which becomes the primary.
    pub fn new_with_key_id<P, M: KeyManager<P>>(kt: &KeyTemplate, km: &M, key_id: u32) -> (r: Result<
        Handle,
        TinkError,
    >)
        ensures
            key_id == 0 ==> r is Err,
            kt.output_prefix_type == OutputPrefixType::UnknownPrefix ==> r is Err,
            r is Ok ==> {
                let ks = r->Ok_0@;
                &&& valid_keyset(ks)
                &&& ks.primary_key_id == key_id
                &&& ks.key@.len() == 1
                &&& ks.key@[0].key_id == key_id
                &&& ks.key@[0].status == KeyStatusType::Enabled
                &&& ks.key@[0].output_prefix_type == kt.output_prefix_type
                &&& ks.key@[0].key_data is Some
            },
    {
        let mut ksm = Manager::new();
        match ksm.add_with_key_id(kt, km, key_id, true) {
            Ok(()) => {},
            Err(e) => {
                return Err(e);
            },
        }
        proof {
            assert(ksm@.key@[0] == ksm@.key@.last());
        }
        ksm.handle()
    }

    /// The primitives of the enabled keys, each made by `registry`.
    pub fn primitives<P, M: KeyManager<P>>(&self, registry: &M) -> (r: Result<
        PrimitiveSet<P>,
        TinkError,
    >)
        ensures
            !valid_keyset(self@) ==> r is Err,
            r is Ok ==> is_primitive_set_of(r->Ok_0, self@),
    {
        self.primitives_with_key_manager::<P, M, M>(None, registry)
    }

    /// The primitives of the enabled keys; `km` makes those of the key types it
    /// claims, `registry` the others. Keys that are not enabled are skipped.
    pub fn primitives_with_key_manager<P, M: KeyManager<P>, N: KeyManager<P>>(
        &self,
        km: Option<&N>,
        registry: &M,
    ) -> (r: Result<PrimitiveSet<P>, TinkError>)
        ensures
            !valid_keyset(self@) ==> r is Err,
            r is Ok ==> is_primitive_set_of(r->Ok_0, self@),
    {
        match validate(&self.ks) {
            Ok(()) => {},
            Err(e) => {
                return Err(e);
            },
        }
        let keys = &self.ks.key;
        let mut entries: Vec<Entry<P>> = Vec::new();
        let mut primary: Option<usize> = None;
        let mut i: usize = 0;
        while i < keys.len()
            invariant
                keys == &self.ks.key,
                valid_keyset(self@),
                0 <= i <= keys@.len(),
                entries@.len() == enabled_keys(keys@.take(i as int)).len(),
                forall|j: int|
                    0 <= j < entries@.len() ==> entry_of(
                        #[trigger] entries@[j],
                        enabled_keys(keys@.take(i as int))[j],
                    ),
                primary is Some ==> primary->Some_0 < entries@.len()
                    && entries@[primary->Some_0 as int].key_id == self.ks.primary_key_id,
                (exists|k: int|
                    0 <= k < i && (#[trigger] keys@[k]).key_id == self.ks.primary_key_id
                        && keys@[k].status == KeyStatusType::Enabled) ==> primary is Some,
            decreases keys@.len() - i,
        {
            let key = &keys[i];
            proof {
                let t = keys@.take(i as int + 1);
                assert(t.drop_last() =~= keys@.take(i as int));
                assert(t.last() == keys@[i as int]);
            }
            if key.status != KeyStatusType::Enabled {
                i += 1;
                continue;
            }
            let key_data = match &key.key_data {
                Some(kd) => kd,
                None => {
                    return Err(
                        TinkError::new(ErrorKind::InvalidArgument, "primitives_with_key_manager: no key_data"),
                    );
                },
            };
            let primitive = match km {
                Some(m) if m.does_support(key_data.type_url.as_str()) => m.primitive(
                    key_data.value.as_slice(),
                ),
                _ => {
                    if registry.does_support(key_data.type_url.as_str()) {
                        registry.primitive(key_data.value.as_slice())
                    } else {
                        Err(TinkError::new(ErrorKind::NotFound, "primitives_with_key_manager: no key manager"))
                    }
                },
            };
            let primitive = match primitive {
                Ok(p) => p,
                Err(e) => {
                    return Err(e);
                },
            };
            let prefix = match create_output_prefix(key) {
                Ok(p) => p,
                Err(e) => {
                    return Err(e);
                },
            };
            let entry = Entry {
                primitive,
                key_id: key.key_id,
                status: key.status,
                prefix_type: key.output_prefix_type,
                prefix,
                type_url: key_data.type_url.clone(),
            };
            let ghost old_entries = entries@;
            entries.push(entry);
            if key.key_id == self.ks.primary_key_id {
                primary = Some(entries.len() - 1);
            }
            proof {
                let en = enabled_keys(keys@.take(i as int + 1));
                assert(en == enabled_keys(keys@.take(i as int)).push(keys@[i as int]));
                assert forall|j: int| 0 <= j < entries@.len() implies entry_of(
                    #[trigger] entries@[j],
                    en[j],
                ) by {
                    if j < old_entries.len() {
                        assert(entries@[j] == old_entries[j]);
                    }
                }
            }
            i += 1;
        }
        proof {
            assert(keys@.take(keys@.len() as int) =~= keys@);
        }
        Ok(PrimitiveSet { entries, primary })
    }

    /// A handle over `ks`, which must hold no secret material.
    pub fn new_with_no_secrets(ks: Keyset) -> (r: Result<Handle, TinkError>)
        ensures
            r is Err <==> has_secrets(ks),
            r is Ok ==> r->Ok_0@ == ks,
            r is Err ==> r->Err_0.kind == ErrorKind::InvalidArgument,
    {
        let h = Handle { ks };
        if h.has_secrets() {
            return Err(
                TinkError::new(
                    ErrorKind::InvalidArgument,
                    "importing unencrypted secret key material is forbidden",
                ),
            );
        }
        Ok(h)
    }

    /// A handle over the keyset that `reader` yields sealed, opened with `master_key`.
    pub fn read<T: Reader, S: Aead>(reader: &mut T, master_key: &S) -> (r: Result<Handle, TinkError>)
    {
        let encrypted_keyset = match reader.read_encrypted() {
            Ok(e) => e,
            Err(e) => {
                return Err(e);
            },
        };
        match decrypt(&encrypted_keyset, master_key) {
            Ok(ks) => Ok(Handle { ks }),
            Err(e) => Err(e),
        }
    }

    /// A handle over the keyset that `reader` yields, which must hold no secret material.
    pub fn read_with_no_secrets<T: Reader>(reader: &mut T) -> (r: Result<Handle, TinkError>)
        ensures
            r is Ok ==> !has_secrets(r->Ok_0@),
    {
        let ks = match reader.read() {
            Ok(ks) => ks,
            Err(e) => {
                return Err(e);
            },
        };
        Handle::new_with_no_secrets(ks)
    }

    /// A handle over the public keys of this handle's private keys. Every key
    /// must carry private key data; ids, statuses, prefix policies and the
    /// primary are kept.
    pub fn public<P, M: KeyManager<P>>(&self, km: &M) -> (r: Result<Handle, TinkError>)
        ensures
            (exists|i: int|
                0 <= i < self@.key@.len() && !key_is_private(#[trigger] self@.key@[i])) ==> r is Err,
            self@.key@.len() == 0 ==> r is Ok && r->Ok_0@.key@.len() == 0,
            r is Ok ==> {
                let p = r->Ok_0@;
                &&& p.primary_key_id == self@.primary_key_id
                &&& p.key@.len() == self@.key@.len()
                &&& forall|i: int|
                    0 <= i < p.key@.len() ==> same_but_data(#[trigger] p.key@[i], self@.key@[i])
            },
    {
        let priv_keys = &self.ks.key;
        let mut pub_keys: Vec<Key> = Vec::new();
        let mut i: usize = 0;
        while i < priv_keys.len()
            invariant
                priv_keys == &self.ks.key,
                0 <= i <= priv_keys@.len(),
                pub_keys@.len() == i,
                forall|k: int| 0 <= k < i ==> same_but_data(#[trigger] pub_keys@[k], priv_keys@[k]),
                forall|k: int|
                    0 <= k < i ==> key_is_private(#[trigger] priv_keys@[k]),
            decreases priv_keys@.len() - i,
        {
            let priv_key = &priv_keys[i];
            let priv_key_data = match &priv_key.key_data {
                None => {
                    return Err(TinkError::new(ErrorKind::InvalidArgument, "keyset::Handle: invalid keyset"));
                },
                Some(kd) => kd,
            };
            let pub_key_data = match public_key_data(priv_key_data, km) {
                Ok(kd) => kd,
                Err(e) => {
                    return Err(e);
                },
            };
            pub_keys.push(
                Key {
                    key_data: Some(pub_key_data),
                    status: priv_key.status,
                    key_id: priv_key.key_id,
                    output_prefix_type: priv_key.output_prefix_type,
                },
            );
            i += 1;
        }
        let ks = Keyset { primary_key_id: self.ks.primary_key_id, key: pub_keys };
        Ok(Handle { ks })
    }

    /// Seal the keyset under `master_key` and hand it, with its redacted
    /// summary, to `writer`.
    pub fn write<T: Writer, S: Aead>(&self, writer: &mut T, master_key: S) -> (r: Result<
        (),
        TinkError,
    >)
    {
        let encrypted = match encrypt(&self.ks, master_key) {
            Ok(e) => e,
            Err(e) => {
                return Err(e);
            },
        };
        writer.write_encrypted(&encrypted)
    }

    /// Hand the keyset to `w` in the clear; refused when it holds secret material.
    pub fn write_with_no_secrets<T: Writer>(&self, w: &mut T) -> (r: Result<(), TinkError>)
        ensures
            has_secrets(self@) ==> r is Err && r->Err_0.kind == ErrorKind::InvalidArgument && *final(w) == *old(w),
    {
        if self.has_secrets() {
            Err(
                TinkError::new(
                    ErrorKind::InvalidArgument,
                    "exporting unencrypted secret key material is forbidden",
                ),
            )
        } else {
            w.write(&self.ks)
        }
    }

    /// Whether the keyset holds secret material: symmetric keys, private keys,
    /// and material of unknown type.
    pub fn has_secrets(&self) -> (r: bool)
        ensures
            r == has_secrets(self@),
    {
        let keys = &self.ks.key;
        let mut i: usize = 0;
        while i < keys.len()
            invariant
                keys == &self.ks.key,
                0 <= i <= keys@.len(),
                forall|k: int| 0 <= k < i ==> !key_is_secret(#[trigger] keys@[k]),
            decreases keys@.len() - i,
        {
            match &keys[i].key_data {
                None => {},
                Some(kd) => {
                    if kd.key_material_type.is_secret() {
                        proof {
                            assert(key_is_secret(keys@[i as int]));
                        }
                        return true;
                    }
                },
            }
            i += 1;
        }
        false
    }

    /// The redacted summary of the keyset.
    pub fn keyset_info(&self) -> (r: KeysetInfo)
        ensures
            is_keyset_info_of(r, self@),
    {
        get_keyset_info(&self.ks)
    }
}

/// The public key data for private key data, through `km`.
fn public_key_data<P, M: KeyManager<P>>(priv_key_data: &KeyData, km: &M) -> (r: Result<
    KeyData,
    TinkError,
>)
    ensures
        priv_key_data.key_material_type != KeyMaterialType::AsymmetricPrivate ==> r is Err,
{
    if priv_key_data.key_material_type != KeyMaterialType::AsymmetricPrivate {
        return Err(
            TinkError::new(
                ErrorKind::InvalidArgument,
                "keyset::Handle: keyset contains a non-private key",
            ),
        );
    }
    if !km.does_support(priv_key_data.type_url.as_str()) {
        return Err(TinkError::new(ErrorKind::NotFound, "keyset::Handle: no key manager for the key"));
    }
    if !km.supports_private_keys() {
        return Err(
            TinkError::new(
                ErrorKind::InvalidArgument,
                "keyset::Handle: the key manager does not handle private keys",
            ),
        );
    }
    km.public_key_data(priv_key_data.value.as_slice())
}

/// The three fields of a key-data record, in order.
pub open spec fn key_data_fields(kd: KeyData) -> (Seq<u8>, Seq<u8>, Seq<u8>) {
    (
        bytes_field(1, encode_utf8(kd.type_url@)),
        bytes_field(2, kd.value@),
        uint_field(3, kd.key_material_type.spec_value() as nat),
    )
}

proof fn lemma_key_data_layout(b: Seq<u8>, kd: KeyData)
    requires
        key_data_bytes(kd) == b,
    ensures
        ({
            let f = key_data_fields(kd);
            let n1 = f.0.len() as int;
            let n2 = n1 + f.1.len();
            &&& n2 + f.2.len() == b.len()
            &&& starts_with(b, 0, f.0)
            &&& (encode_utf8(kd.type_url@).len() != 0 || b.len() == 0 || b[0] != 1 * 8 + 2)
            &&& starts_with(b, n1, f.1)
            &&& (kd.value@.len() != 0 || n1 == b.len() || b[n1] != 2 * 8 + 2)
            &&& starts_with(b, n2, f.2)
            &&& (f.2.len() != 0 || n2 == b.len())
        }),
{
    let f = key_data_fields(kd);
    lemma_field_first_byte(1, 0, encode_utf8(kd.type_url@));
    lemma_field_first_byte(2, 0, kd.value@);
    lemma_field_first_byte(3, kd.key_material_type.spec_value() as nat, Seq::empty());
    assert(b == f.0 + f.1 + f.2);
    let n1 = f.0.len() as int;
    let n2 = n1 + f.1.len();
    assert(b.subrange(0, n1) =~= f.0);
    assert(b.subrange(n1, n2) =~= f.1);
    assert(b.subrange(n2, b.len() as int) =~= f.2);
    if f.0.len() == 0 && b.len() > 0 {
        if f.1.len() > 0 {
            assert(b[0] == f.1[0]);
        } else {
            assert(b[0] == f.2[0]);
        }
    }
    if f.1.len() == 0 && n1 < b.len() {
        assert(b[n1] == f.2[0]);
    }
}

/// Decode a key-data record in canonical form; every canonical encoding is decoded.
fn decode_key_data(b: &[u8]) -> (r: Option<KeyData>)
    ensures
        r is Some ==> key_data_bytes(r->Some_0) == b@,
        r is None ==> forall|kd: KeyData| #[trigger] key_data_bytes(kd) != b@,
{
    let ghost hyp = exists|kd: KeyData| #[trigger] key_data_bytes(kd) == b@;
    let ghost kd0 = choose|kd: KeyData| #[trigger] key_data_bytes(kd) == b@;
    let ghost f = key_data_fields(kd0);
    proof {
        if hyp {
            lemma_key_data_layout(b@, kd0);
        }
    }
    let (us, ue, p1) = match read_bytes_field(b, 0, 1) {
        Some(x) => x,
        None => {
            proof {
                if hyp {
                    assert(starts_with(b@, 0, bytes_field(1, encode_utf8(kd0.type_url@))));
                }
            }
            return None;
        },
    };
    proof {
        if hyp {
            assert(p1 == f.0.len());
            vstd::utf8::encode_utf8_valid_utf8(kd0.type_url@);
        }
    }
    let url = match string_from_utf8(slice_to_vec(slice_subrange(b, us, ue))) {
        Some(u) => u,
        None => {
            return None;
        },
    };
    let (vs, ve, p2) = match read_bytes_field(b, p1, 2) {
        Some(x) => x,
        None => {
            proof {
                if hyp {
                    assert(starts_with(b@, p1 as int, bytes_field(2, kd0.value@)));
                }
            }
            return None;
        },
    };
    proof {
        if hyp {
            assert(starts_with(b@, p1 as int, bytes_field(2, kd0.value@)));
            assert(p2 == f.0.len() + f.1.len());
            assert(starts_with(b@, p2 as int, uint_field(3, kd0.key_material_type.spec_value() as u64 as nat)));
        }
    }
    let value = slice_to_vec(slice_subrange(b, vs, ve));
    let (m, p3) = match read_uint_field(b, p2, 3) {
        Some(x) => x,
        None => {
            return None;
        },
    };
    let material = match KeyMaterialType::from_value(m) {
        Some(x) => x,
        None => {
            return None;
        },
    };
    if p3 != b.len() {
        return None;
    }
    let kd = KeyData { type_url: url, value, key_material_type: material };
    assert(b@ =~= b@.subrange(0, p1 as int) + b@.subrange(p1 as int, p2 as int) + b@.subrange(p2 as int, p3 as int));
    Some(kd)
}

/// The four fields of a key, in order.
pub open spec fn key_fields(k: Key) -> (Seq<u8>, Seq<u8>, Seq<u8>, Seq<u8>) {
    (
        if k.key_data is Some {
            delimited(1, key_data_bytes(k.key_data->Some_0))
        } else {
            Seq::<u8>::empty()
        },
        uint_field(2, k.status.spec_value() as nat),
        uint_field(3, k.key_id as nat),
        uint_field(4, k.output_prefix_type.spec_value() as nat),
    )
}

proof fn lemma_key_layout(b: Seq<u8>, k: Key)
    requires
        key_bytes(k) == b,
    ensures
        ({
            let f = key_fields(k);
            let n1 = f.0.len() as int;
            let n2 = n1 + f.1.len();
            let n3 = n2 + f.2.len();
            &&& n3 + f.3.len() == b.len()
            &&& k.key_data is Some ==> b.len() > 0 && b[0] == 0x0a && starts_with(b, 0, f.0)
            &&& k.key_data is None ==> n1 == 0 && (b.len() == 0 || b[0] != 0x0a)
            &&& starts_with(b, n1, f.1)
            &&& (f.1.len() != 0 || n1 == b.len() || b[n1] != 2 * 8)
            &&& starts_with(b, n2, f.2)
            &&& (f.2.len() != 0 || n2 == b.len() || b[n2] != 3 * 8)
            &&& starts_with(b, n3, f.3)
            &&& (f.3.len() != 0 || n3 == b.len())
        }),
{
    let f = key_fields(k);
    if k.key_data is Some {
        lemma_field_first_byte(1, 0, key_data_bytes(k.key_data->Some_0));
    }
    lemma_field_first_byte(2, k.status.spec_value() as nat, Seq::empty());
    lemma_field_first_byte(3, k.key_id as nat, Seq::empty());
    lemma_field_first_byte(4, k.output_prefix_type.spec_value() as nat, Seq::empty());
    assert(b == f.0 + f.1 + f.2 + f.3);
    let n1 = f.0.len() as int;
    let n2 = n1 + f.1.len();
    let n3 = n2 + f.2.len();
    assert(b.subrange(0, n1) =~= f.0);
    assert(b.subrange(n1, n2) =~= f.1);
    assert(b.subrange(n2, n3) =~= f.2);
    assert(b.subrange(n3, b.len() as int) =~= f.3);
    if k.key_data is Some {
        assert(b[0] == f.0[0]);
    } else if b.len() > 0 {
        if f.1.len() > 0 {
            assert(b[0] == f.1[0]);
        } else if f.2.len() > 0 {
            assert(b[0] == f.2[0]);
        } else {
            assert(b[0] == f.3[0]);
        }
    }
    if f.1.len() == 0 && n1 < b.len() {
        if f.2.len() > 0 {
            assert(b[n1] == f.2[0]);
        } else {
            assert(b[n1] == f.3[0]);
        }
    }
    if f.2.len() == 0 && n2 < b.len() {
        assert(b[n2] == f.3[0]);
    }
}

/// Decode a key in canonical form.
#[verifier::rlimit(80)]
fn decode_key(b: &[u8]) -> (r: Option<Key>)
    ensures
        r is Some ==> key_bytes(r->Some_0) == b@,
        r is None ==> forall|k: Key| #[trigger] key_bytes(k) != b@,
{
    let ghost hyp = exists|k: Key| #[trigger] key_bytes(k) == b@;
    let ghost k0 = choose|k: Key| #[trigger] key_bytes(k) == b@;
    let ghost f = key_fields(k0);
    proof {
        if hyp {
            lemma_key_layout(b@, k0);
        }
    }
    let (key_data, p1) = if b.len() > 0 && b[0] == 0x0a {
        match read_delimited(b, 0, 1) {
            Some((s, e)) => match decode_key_data(slice_subrange(b, s, e)) {
                Some(kd) => (Some(kd), e),
                None => {
                    return None;
                },
            },
            None => {
                return None;
            },
        }
    } else {
        (None, 0)
    };
    proof {
        if hyp {
            assert(p1 == f.0.len());
            assert(starts_with(b@, p1 as int, uint_field(2, k0.status.spec_value() as u64 as nat)));
        }
    }
    let (st, p2) = match read_uint_field(b, p1, 2) {
        Some(x) => x,
        None => {
            return None;
        },
    };
    let status = match KeyStatusType::from_value(st) {
        Some(x) => x,
        None => {
            return None;
        },
    };
    proof {
        if hyp {
            assert(starts_with(b@, p2 as int, uint_field(3, k0.key_id as u64 as nat)));
        }
    }
    let (id, p3) = match read_uint_field(b, p2, 3) {
        Some(x) => x,
        None => {
            return None;
        },
    };
    if id > u32::MAX as u64 {
        return None;
    }
    proof {
        if hyp {
            assert(starts_with(b@, p3 as int, uint_field(4, k0.output_prefix_type.spec_value() as u64 as nat)));
        }
    }
    let (pt, p4) = match read_uint_field(b, p3, 4) {
        Some(x) => x,
        None => {
            return None;
        },
    };
    let prefix = match OutputPrefixType::from_value(pt) {
        Some(x) => x,
        None => {
            return None;
        },
    };
    if p4 != b.len() {
        return None;
    }
    let k = Key { key_data, status, key_id: id as u32, output_prefix_type: prefix };
    proof {
        let head = if k.key_data is Some {
            delimited(1, key_data_bytes(k.key_data->Some_0))
        } else {
            Seq::empty()
        };
        assert(b@.subrange(0, p1 as int) =~= head);
        assert(b@ =~= b@.subrange(0, p1 as int) + b@.subrange(p1 as int, p2 as int) + b@.subrange(p2 as int, p3 as int)
            + b@.subrange(p3 as int, p4 as int));
    }
    Some(k)
}

/// The encoding of a list of keys, read from the front.
proof fn lemma_keys_bytes_front(keys: Seq<Key>)
    requires
        keys.len() > 0,
    ensures
        keys_bytes(keys) == delimited(2, key_bytes(keys[0])) + keys_bytes(keys.skip(1)),
    decreases keys.len(),
{
    if keys.len() == 1 {
        assert(keys.drop_last() =~= Seq::<Key>::empty());
        assert(keys.skip(1) =~= Seq::<Key>::empty());
        assert(keys_bytes(keys.skip(1)) == Seq::<u8>::empty());
        assert(delimited(2, key_bytes(keys[0])) + Seq::<u8>::empty() =~= delimited(2, key_bytes(keys[0])));
    } else {
        let d = keys.drop_last();
        lemma_keys_bytes_front(d);
        assert(d.skip(1) =~= keys.skip(1).drop_last());
        assert(keys.skip(1).last() == keys.last());
        assert(d[0] == keys[0]);
        let a = delimited(2, key_bytes(keys[0]));
        let t = delimited(2, key_bytes(keys.last()));
        assert(keys_bytes(keys) == keys_bytes(d) + t);
        assert(keys_bytes(keys.skip(1)) == keys_bytes(d.skip(1)) + t);
        assert((a + keys_bytes(d.skip(1))) + t =~= a + (keys_bytes(d.skip(1)) + t));
    }
}

/// The next key of a canonical list of keys starts at `pos`.
proof fn lemma_keyset_step(b: Seq<u8>, pos: int, rest: Seq<Key>)
    requires
        0 <= pos < b.len(),
        b.subrange(pos, b.len() as int) == keys_bytes(rest),
    ensures
        rest.len() > 0,
        starts_with(b, pos, delimited(2, key_bytes(rest[0]))),
        b.subrange(pos + delimited(2, key_bytes(rest[0])).len(), b.len() as int) == keys_bytes(rest.skip(1)),
{
    if rest.len() == 0 {
        assert(keys_bytes(rest) == Seq::<u8>::empty());
        assert(b.subrange(pos, b.len() as int).len() > 0);
    }
    lemma_keys_bytes_front(rest);
    let d = delimited(2, key_bytes(rest[0]));
    let whole = b.subrange(pos, b.len() as int);
    assert(whole == d + keys_bytes(rest.skip(1)));
    assert((d + keys_bytes(rest.skip(1))).subrange(0, d.len() as int) =~= d);
    assert(b.subrange(pos, pos + d.len()) =~= whole.subrange(0, d.len() as int));
    assert(b.subrange(pos + d.len(), b.len() as int) =~= whole.skip(d.len() as int));
    assert((d + keys_bytes(rest.skip(1))).skip(d.len() as int) =~= keys_bytes(rest.skip(1)));
}

/// Decode a keyset in canonical form: what is returned encodes back to `b`,
/// and every canonical encoding of a keyset is decoded.
pub fn decode_keyset(b: &[u8]) -> (r: Option<Keyset>)
    ensures
        r is Some ==> keyset_bytes(r->Some_0) == b@,
        r is None ==> forall|ks: Keyset| #[trigger] keyset_bytes(ks) != b@,
{
    let ghost hyp = exists|ks: Keyset| #[trigger] keyset_bytes(ks) == b@;
    let ghost ks0 = choose|ks: Keyset| #[trigger] keyset_bytes(ks) == b@;
    let ghost f1 = uint_field(1, ks0.primary_key_id as nat);
    proof {
        if hyp {
            lemma_field_first_byte(1, ks0.primary_key_id as nat, Seq::empty());
            assert(b@ == f1 + keys_bytes(ks0.key@));
            assert(b@.subrange(0, f1.len() as int) =~= f1);
            assert(b@.subrange(f1.len() as int, b@.len() as int) =~= keys_bytes(ks0.key@));
            if f1.len() == 0 && b@.len() > 0 {
                lemma_keys_bytes_front(ks0.key@);
                lemma_field_first_byte(2, 0, key_bytes(ks0.key@[0]));
                assert(b@[0] == keys_bytes(ks0.key@)[0]);
            }
            assert(starts_with(b@, 0, uint_field(1, ks0.primary_key_id as u64 as nat)));
            assert(ks0.key@.skip(0) =~= ks0.key@);
        }
    }
    let (primary, mut pos) = match read_uint_field(b, 0, 1) {
        Some(x) => x,
        None => {
            return None;
        },
    };
    if primary > u32::MAX as u64 {
        return None;
    }
    let mut keys: Vec<Key> = Vec::new();
    assert(keys_bytes(keys@) =~= Seq::<u8>::empty());
    assert(b@.subrange(0, pos as int) =~= uint_field(1, primary as nat) + keys_bytes(keys@));
    while pos < b.len()
        invariant
            pos <= b@.len(),
            b@.subrange(0, pos as int) == uint_field(1, primary as nat) + keys_bytes(keys@),
            hyp == exists|ks: Keyset| #[trigger] keyset_bytes(ks) == b@,
            hyp ==> keyset_bytes(ks0) == b@,
            hyp ==> keys@.len() <= ks0.key@.len() && b@.subrange(pos as int, b@.len() as int) == keys_bytes(
                ks0.key@.skip(keys@.len() as int),
            ),
        decreases b@.len() - pos,
    {
        let ghost j = keys@.len() as int;
        assert(hyp ==> starts_with(b@, pos as int, delimited(2, key_bytes(ks0.key@.skip(j)[0])))) by {
            if hyp {
                lemma_keyset_step(b@, pos as int, ks0.key@.skip(j));
            }
        }
        let (s, e) = match read_delimited(b, pos, 2) {
            Some(x) => x,
            None => {
                return None;
            },
        };
        let k = match decode_key(slice_subrange(b, s, e)) {
            Some(k) => k,
            None => {
                return None;
            },
        };
        let ghost before = keys@;
        keys.push(k);
        proof {
            assert(keys@.drop_last() =~= before);
            assert(b@.subrange(0, e as int) =~= b@.subrange(0, pos as int) + b@.subrange(pos as int, e as int));
        }
        assert(hyp ==> b@.subrange(e as int, b@.len() as int) == keys_bytes(ks0.key@.skip(keys@.len() as int))) by {
            if hyp {
                lemma_keyset_step(b@, pos as int, ks0.key@.skip(j));
                assert(ks0.key@.skip(j).skip(1) =~= ks0.key@.skip(j + 1));
            }
        }
        pos = e;
    }
    assert(b@.subrange(0, b@.len() as int) =~= b@);
    Some(Keyset { primary_key_id: primary as u32, key: keys })
}

/// Open a sealed keyset with `master_key`, with empty associated data.
fn decrypt<S: Aead>(encrypted_keyset: &EncryptedKeyset, master_key: &S) -> (r: Result<Keyset, TinkError>) {
    let decrypted = match master_key.decrypt(encrypted_keyset.encrypted_keyset.as_slice(), &[]) {
        Ok(d) => d,
        Err(e) => {
            return Err(e);
        },
    };
    match decode_keyset(decrypted.as_slice()) {
        Some(ks) => Ok(ks),
        None => Err(TinkError::new(ErrorKind::InvalidArgument, "keyset::Handle: invalid keyset")),
    }
}

/// Seal `keyset` under `master_key`, with empty associated data.
fn encrypt<S: Aead>(keyset: &Keyset, master_key: S) -> (r: Result<EncryptedKeyset, TinkError>)
    ensures
        r is Ok ==> r->Ok_0.keyset_info is Some && is_keyset_info_of(
            r->Ok_0.keyset_info->Some_0,
            *keyset,
        ),
{
    let serialized_keyset = encode_keyset(keyset);
    let encrypted = match master_key.encrypt(serialized_keyset.as_slice(), &[]) {
        Ok(c) => c,
        Err(e) => {
            return Err(e);
        },
    };
    Ok(EncryptedKeyset { encrypted_keyset: encrypted, keyset_info: Some(get_keyset_info(keyset)) })
}

/// The redacted summary of a keyset.
fn get_keyset_info(keyset: &Keyset) -> (r: KeysetInfo)
    ensures
        is_keyset_info_of(r, *keyset),
{
    let mut key_infos: Vec<KeyInfo> = Vec::new();
    let mut i: usize = 0;
    while i < keyset.key.len()
        invariant
            0 <= i <= keyset.key@.len(),
            key_infos@.len() == i,
            forall|k: int| 0 <= k < i ==> is_key_info_of(#[trigger] key_infos@[k], keyset.key@[k]),
        decreases keyset.key@.len() - i,
    {
        key_infos.push(get_key_info(&keyset.key[i]));
        i += 1;
    }
    KeysetInfo { primary_key_id: keyset.primary_key_id, key_info: key_infos }
}

/// The redacted summary of a key; a key without key data has an empty type URL.
fn get_key_info(key: &Key) -> (r: KeyInfo)
    ensures
        is_key_info_of(r, *key),
{
    let url = match &key.key_data {
        Some(kd) => kd.type_url.clone(),
        None => String::new(),
    };
    KeyInfo {
        type_url: url,
        status: key.status,
        key_id: key.key_id,
        output_prefix_type: key.output_prefix_type,
    }
}

/// Appends the encoding of a key-data record.
fn put_key_data(buf: &mut Vec<u8>, kd: &KeyData)
    ensures
        final(buf)@ == old(buf)@ + key_data_bytes(*kd),
{
    put_bytes_field(buf, 1, kd.type_url.as_str().as_bytes());
    put_bytes_field(buf, 2, kd.value.as_slice());
    put_uint_field(buf, 3, kd.key_material_type.value() as u64);
    assert(final(buf)@ =~= old(buf)@ + key_data_bytes(*kd));
}

/// Appends the encoding of a key.
#[verifier::rlimit(30)]
fn put_key(buf: &mut Vec<u8>, k: &Key)
    ensures
        final(buf)@ == old(buf)@ + key_bytes(*k),
{
    let ghost start = buf@;
    match &k.key_data {
        Some(kd) => {
            let mut inner: Vec<u8> = Vec::new();
            put_key_data(&mut inner, kd);
            assert(inner@ =~= key_data_bytes(*kd));
            put_delimited(buf, 1, inner.as_slice());
        },
        None => {},
    }
    put_uint_field(buf, 2, k.status.value() as u64);
    put_uint_field(buf, 3, k.key_id as u64);
    put_uint_field(buf, 4, k.output_prefix_type.value() as u64);
    assert(buf@ =~= start + key_bytes(*k));
}

/// The canonical encoding of a keyset.
pub fn encode_keyset(ks: &Keyset) -> (r: Vec<u8>)
    ensures
        r@ == keyset_bytes(*ks),
{
    let mut buf: Vec<u8> = Vec::new();
    put_uint_field(&mut buf, 1, ks.primary_key_id as u64);
    let ghost head = buf@;
    let mut i: usize = 0;
    while i < ks.key.len()
        invariant
            0 <= i <= ks.key@.len(),
            buf@ == head + keys_bytes(ks.key@.take(i as int)),
        decreases ks.key@.len() - i,
    {
        let mut inner: Vec<u8> = Vec::new();
        put_key(&mut inner, &ks.key[i]);
        assert(inner@ =~= key_bytes(ks.key@[i as int]));
        put_delimited(&mut buf, 2, inner.as_slice());
        proof {
            let t = ks.key@.take(i as int + 1);
            assert(t.drop_last() =~= ks.key@.take(i as int));
            assert(t.last() == ks.key@[i as int]);
            assert(buf@ =~= head + keys_bytes(t));
        }
        i += 1;
    }
    assert(ks.key@.take(ks.key@.len() as int) =~= ks.key@);
    assert(buf@ =~= keyset_bytes(*ks));
    buf
}

} // verus!
