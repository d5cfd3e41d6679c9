use keysafe::error::{ErrorKind, TinkError};
use keysafe::handle::{decode_keyset, encode_keyset, Aead, Handle, KeyManager, Reader, Writer};
use keysafe::keyset::{create_output_prefix, validate};
use keysafe::proto::{
    EncryptedKeyset, Key, KeyData, KeyMaterialType, KeyStatusType, KeyTemplate, Keyset,
    OutputPrefixType,
};

fn key_data(url: &str, value: &[u8], m: KeyMaterialType) -> KeyData {
    KeyData { type_url: url.to_string(), value: value.to_vec(), key_material_type: m }
}

fn key(id: u32, status: KeyStatusType, m: KeyMaterialType) -> Key {
    Key {
        key_data: Some(key_data("test.Key", &[id as u8], m)),
        status,
        key_id: id,
        output_prefix_type: OutputPrefixType::Tink,
    }
}

fn keyset(primary: u32, keys: Vec<Key>) -> Keyset {
    Keyset { primary_key_id: primary, key: keys }
}

/// Builds "primitives" that remember their key bytes; derives public data by
/// reversing the bytes.
struct TestManager {
    url: &'static str,
    private: bool,
}

impl KeyManager<Vec<u8>> for TestManager {
    fn primitive(&self, serialized_key: &[u8]) -> Result<Vec<u8>, TinkError> {
        if serialized_key.is_empty() {
            Err(TinkError::new(ErrorKind::InvalidArgument, "empty key"))
        } else {
            Ok(serialized_key.to_vec())
        }
    }
    fn new_key_data(&self, serialized_format: &[u8]) -> Result<KeyData, TinkError> {
        let mut v = serialized_format.to_vec();
        v.push(0xAA);
        Ok(key_data(self.url, &v, KeyMaterialType::Symmetric))
    }
    fn does_support(&self, type_url: &str) -> bool {
        type_url == self.url
    }
    fn supports_private_keys(&self) -> bool {
        self.private
    }
    fn public_key_data(&self, serialized_priv_key: &[u8]) -> Result<KeyData, TinkError> {
        let mut v = serialized_priv_key.to_vec();
        v.reverse();
        Ok(key_data(self.url, &v, KeyMaterialType::AsymmetricPublic))
    }
}

#[derive(Default)]
struct MemStore {
    plain: Option<Keyset>,
    sealed: Option<EncryptedKeyset>,
}

impl Writer for MemStore {
    fn write(&mut self, keyset: &Keyset) -> Result<(), TinkError> {
        self.plain = Some(keyset.clone());
        Ok(())
    }
    fn write_encrypted(&mut self, keyset: &EncryptedKeyset) -> Result<(), TinkError> {
        self.sealed = Some(keyset.clone());
        Ok(())
    }
}

impl Reader for MemStore {
    fn read(&mut self) -> Result<Keyset, TinkError> {
        self.plain.clone().ok_or_else(|| TinkError::new(ErrorKind::NotFound, "empty"))
    }
    fn read_encrypted(&mut self) -> Result<EncryptedKeyset, TinkError> {
        self.sealed.clone().ok_or_else(|| TinkError::new(ErrorKind::NotFound, "empty"))
    }
}

/// XORs with a fixed byte; enough to see that the keyset went through it.
struct XorAead(u8);

impl Aead for XorAead {
    fn encrypt(&self, plaintext: &[u8], _ad: &[u8]) -> Result<Vec<u8>, TinkError> {
        Ok(plaintext.iter().map(|b| b ^ self.0).collect())
    }
    fn decrypt(&self, ciphertext: &[u8], _ad: &[u8]) -> Result<Vec<u8>, TinkError> {
        Ok(ciphertext.iter().map(|b| b ^ self.0).collect())
    }
}

#[test]
fn validate_accepts_enabled_primary() {
    let ks = keyset(
        2,
        vec![
            key(1, KeyStatusType::Disabled, KeyMaterialType::Symmetric),
            key(2, KeyStatusType::Enabled, KeyMaterialType::Symmetric),
        ],
    );
    assert!(validate(&ks).is_ok());
}

#[test]
fn validate_rejects_broken_keysets() {
    let e = KeyStatusType::Enabled;
    let s = KeyMaterialType::Symmetric;
    // no keys
    assert!(validate(&keyset(1, vec![])).is_err());
    // primary missing
    assert!(validate(&keyset(3, vec![key(1, e, s)])).is_err());
    // primary disabled
    assert!(validate(&keyset(1, vec![key(1, KeyStatusType::Disabled, s)])).is_err());
    // zero id
    assert!(validate(&keyset(0, vec![key(0, e, s)])).is_err());
    // duplicate id
    let err = validate(&keyset(1, vec![key(1, e, s), key(1, e, s)])).err().unwrap();
    assert_eq!(err.kind, ErrorKind::InvalidArgument);
    // unknown prefix policy
    let mut k = key(1, e, s);
    k.output_prefix_type = OutputPrefixType::UnknownPrefix;
    assert!(validate(&keyset(1, vec![k])).is_err());
    // unknown status
    assert!(validate(&keyset(1, vec![key(1, KeyStatusType::UnknownStatus, s)])).is_err());
}

#[test]
fn output_prefixes() {
    let mut k = key(0x01020304, KeyStatusType::Enabled, KeyMaterialType::Symmetric);
    assert_eq!(create_output_prefix(&k).unwrap(), vec![1, 1, 2, 3, 4]);
    k.output_prefix_type = OutputPrefixType::Legacy;
    assert_eq!(create_output_prefix(&k).unwrap(), vec![0, 1, 2, 3, 4]);
    k.output_prefix_type = OutputPrefixType::Crunchy;
    assert_eq!(create_output_prefix(&k).unwrap(), vec![0, 1, 2, 3, 4]);
    k.output_prefix_type = OutputPrefixType::Raw;
    assert!(create_output_prefix(&k).unwrap().is_empty());
    k.output_prefix_type = OutputPrefixType::UnknownPrefix;
    assert!(create_output_prefix(&k).is_err());
}

#[test]
fn no_secrets_import_and_export() {
    let public = keyset(
        1,
        vec![
            key(1, KeyStatusType::Enabled, KeyMaterialType::AsymmetricPublic),
            key(2, KeyStatusType::Enabled, KeyMaterialType::Remote),
        ],
    );
    let h = Handle::new_with_no_secrets(public).unwrap();
    assert!(!h.has_secrets());
    let mut store = MemStore::default();
    h.write_with_no_secrets(&mut store).unwrap();
    assert_eq!(store.plain.as_ref().unwrap().key.len(), 2);
    let again = Handle::read_with_no_secrets(&mut store).unwrap();
    assert_eq!(again.keyset_info().key_info.len(), 2);

    for m in [
        KeyMaterialType::Symmetric,
        KeyMaterialType::AsymmetricPrivate,
        KeyMaterialType::UnknownKeymaterial,
    ] {
        let ks = keyset(
            1,
            vec![key(1, KeyStatusType::Enabled, KeyMaterialType::AsymmetricPublic), key(2, KeyStatusType::Enabled, m)],
        );
        let err = Handle::new_with_no_secrets(ks).err().unwrap();
        assert_eq!(err.kind, ErrorKind::InvalidArgument);
    }
}

#[test]
fn secret_handle_is_not_exported_in_the_clear() {
    let m = TestManager { url: "test.Key", private: false };
    let t = KeyTemplate { type_url: "test.Key".to_string(), value: vec![1], output_prefix_type: OutputPrefixType::Tink };
    let h = Handle::new_with_key_id(&t, &m, 42).unwrap();
    assert!(h.has_secrets());
    let mut store = MemStore::default();
    let err = h.write_with_no_secrets(&mut store).err().unwrap();
    assert_eq!(err.kind, ErrorKind::InvalidArgument);
    assert!(store.plain.is_none());
    // the sealed path takes it
    h.write(&mut store, XorAead(1)).unwrap();
    assert!(store.sealed.is_some());
    // reading plain material from an empty store fails
    assert_eq!(Handle::read_with_no_secrets(&mut store).err().unwrap().kind, ErrorKind::NotFound);
}

#[test]
fn random_ids_are_non_zero_and_vary() {
    let m = TestManager { url: "test.Key", private: false };
    let t = KeyTemplate { type_url: "test.Key".to_string(), value: vec![], output_prefix_type: OutputPrefixType::Tink };
    let mut ids = std::collections::HashSet::new();
    for _ in 0..26 {
        let h = Handle::new(&t, &m).unwrap();
        let info = h.keyset_info();
        assert_ne!(info.primary_key_id, 0);
        assert_eq!(info.key_info[0].key_id, info.primary_key_id);
        ids.insert(info.primary_key_id);
    }
    assert!(ids.len() > 20);
    let bad = KeyTemplate { output_prefix_type: OutputPrefixType::UnknownPrefix, ..t };
    assert!(Handle::new(&bad, &m).is_err());
}

#[test]
fn new_handle_holds_one_enabled_primary() {
    let m = TestManager { url: "test.Key", private: false };
    let t = KeyTemplate { type_url: "test.Key".to_string(), value: vec![1, 2], output_prefix_type: OutputPrefixType::Raw };
    let h = Handle::new_with_key_id(&t, &m, 7).unwrap();
    let info = h.keyset_info();
    assert_eq!(info.primary_key_id, 7);
    assert_eq!(info.key_info.len(), 1);
    assert_eq!(info.key_info[0].key_id, 7);
    assert_eq!(info.key_info[0].status, KeyStatusType::Enabled);
    assert_eq!(info.key_info[0].output_prefix_type, OutputPrefixType::Raw);
    assert_eq!(info.key_info[0].type_url, "test.Key");
    let ps = h.primitives(&m).unwrap();
    assert_eq!(ps.entries.len(), 1);
    assert_eq!(ps.entries[0].primitive, vec![1, 2, 0xAA]);
    assert_eq!(ps.primary, Some(0));
    // a zero id, an unknown manager, an unknown prefix policy
    assert!(Handle::new_with_key_id(&t, &m, 0).is_err());
    let other = TestManager { url: "other.Key", private: false };
    assert_eq!(Handle::new_with_key_id(&t, &other, 7).err().unwrap().kind, ErrorKind::NotFound);
    let bad = KeyTemplate { output_prefix_type: OutputPrefixType::UnknownPrefix, ..t.clone() };
    assert!(Handle::new_with_key_id(&bad, &m, 7).is_err());
}

#[test]
fn primitives_skip_disabled_keys_and_mark_primary() {
    let mut k3 = key(3, KeyStatusType::Enabled, KeyMaterialType::Symmetric);
    k3.output_prefix_type = OutputPrefixType::Raw;
    let ks = keyset(
        2,
        vec![
            key(1, KeyStatusType::Enabled, KeyMaterialType::Symmetric),
            key(5, KeyStatusType::Disabled, KeyMaterialType::Symmetric),
            key(2, KeyStatusType::Enabled, KeyMaterialType::Symmetric),
            k3,
        ],
    );
    let m = TestManager { url: "test.Key", private: false };
    let h = public_handle(ks);
    let ps = h.primitives(&m).unwrap();
    let ids: Vec<u32> = ps.entries.iter().map(|e| e.key_id).collect();
    assert_eq!(ids, vec![1, 2, 3]);
    assert_eq!(ps.primary, Some(1));
    assert_eq!(ps.entries[1].prefix, vec![1, 0, 0, 0, 2]);
    assert!(ps.entries[2].prefix.is_empty());
    assert_eq!(ps.entries_for_prefix(&[1, 0, 0, 0, 1]), vec![0]);
    assert_eq!(ps.entries_for_prefix(&[]), vec![2]);
    assert!(ps.entries_for_prefix(&[9]).is_empty());
    // an override manager that claims no URL changes nothing
    let none = TestManager { url: "none", private: false };
    assert_eq!(h.primitives_with_key_manager(Some(&none), &m).unwrap().entries.len(), 3);
    // the registry knows nothing, the override knows all
    assert_eq!(h.primitives_with_key_manager(Some(&m), &none).unwrap().entries.len(), 3);
    assert_eq!(h.primitives(&none).err().unwrap().kind, ErrorKind::NotFound);
}

/// A handle over `ks` with every key marked public, so that it can be imported.
fn public_handle(mut ks: Keyset) -> Handle {
    for k in ks.key.iter_mut() {
        if let Some(kd) = k.key_data.as_mut() {
            kd.key_material_type = KeyMaterialType::AsymmetricPublic;
        }
    }
    Handle::new_with_no_secrets(ks).unwrap()
}

#[test]
fn invalid_keyset_yields_no_primitives() {
    let ks = keyset(9, vec![key(1, KeyStatusType::Enabled, KeyMaterialType::AsymmetricPublic)]);
    let h = Handle::new_with_no_secrets(ks).unwrap();
    let m = TestManager { url: "test.Key", private: false };
    assert_eq!(h.primitives(&m).err().unwrap().kind, ErrorKind::InvalidArgument);
}

#[test]
fn public_maps_private_keys() {
    let mut ks = keyset(
        2,
        vec![
            key(1, KeyStatusType::Disabled, KeyMaterialType::AsymmetricPublic),
            key(2, KeyStatusType::Enabled, KeyMaterialType::AsymmetricPublic),
        ],
    );
    ks.key[0].key_data.as_mut().unwrap().value = vec![1, 2, 3];
    // a keyset of public keys is refused
    let h = Handle::new_with_no_secrets(ks.clone()).unwrap();
    let m = TestManager { url: "test.Key", private: true };
    assert!(h.public(&m).is_err());
    // a manager without private-key support is refused too
    let no_priv = TestManager { url: "test.Key", private: false };
    assert!(h.public(&no_priv).is_err());
}

#[test]
fn sealed_write_goes_through_master_key() {
    let ks = keyset(1, vec![key(1, KeyStatusType::Enabled, KeyMaterialType::AsymmetricPublic)]);
    let plain = encode_keyset(&ks);
    let h = Handle::new_with_no_secrets(ks).unwrap();
    let mut store = MemStore::default();
    h.write(&mut store, XorAead(0x5A)).unwrap();
    let sealed = store.sealed.unwrap();
    let want: Vec<u8> = plain.iter().map(|b| b ^ 0x5A).collect();
    assert_eq!(sealed.encrypted_keyset, want);
    let info = sealed.keyset_info.unwrap();
    assert_eq!(info.primary_key_id, 1);
    assert_eq!(info.key_info[0].type_url, "test.Key");
}

#[test]
fn keyset_encoding_is_canonical() {
    let ks = keyset(
        1,
        vec![Key {
            key_data: Some(key_data("u", &[7], KeyMaterialType::Symmetric)),
            status: KeyStatusType::Enabled,
            key_id: 1,
            output_prefix_type: OutputPrefixType::Tink,
        }],
    );
    let kd = vec![0x0a, 1, b'u', 0x12, 1, 7, 0x18, 1];
    let mut k = vec![0x0a, kd.len() as u8];
    k.extend_from_slice(&kd);
    k.extend_from_slice(&[0x10, 1, 0x18, 1, 0x20, 1]);
    let mut want = vec![0x08, 1, 0x12, k.len() as u8];
    want.extend_from_slice(&k);
    assert_eq!(encode_keyset(&ks), want);
    // a large id takes a multi-byte varint
    let big = keyset(300, vec![]);
    assert_eq!(encode_keyset(&big), vec![0x08, 0xAC, 0x02]);
}

#[test]
fn keyset_decodes_what_was_encoded() {
    let mut destroyed = key(9, KeyStatusType::Destroyed, KeyMaterialType::Symmetric);
    destroyed.key_data = None;
    let ks = keyset(
        300,
        vec![
            key(300, KeyStatusType::Enabled, KeyMaterialType::AsymmetricPrivate),
            key(0xFFFF_FFFF, KeyStatusType::Disabled, KeyMaterialType::Remote),
            destroyed,
        ],
    );
    let bytes = encode_keyset(&ks);
    let back = decode_keyset(&bytes).unwrap();
    assert_eq!(back.primary_key_id, 300);
    assert_eq!(back.key.len(), 3);
    assert_eq!(back.key[1].key_id, 0xFFFF_FFFF);
    assert_eq!(back.key[1].status, KeyStatusType::Disabled);
    assert!(back.key[2].key_data.is_none());
    assert_eq!(back.key[0].key_data.as_ref().unwrap().key_material_type, KeyMaterialType::AsymmetricPrivate);
    assert_eq!(encode_keyset(&back), bytes);
    assert!(decode_keyset(&[]).unwrap().key.is_empty());
}

#[test]
fn keyset_decoding_refuses_malformed_input() {
    // truncated length
    assert!(decode_keyset(&[0x12, 5, 0x10]).is_none());
    // unknown field
    assert!(decode_keyset(&[0x28, 1]).is_none());
    // a zero written out
    assert!(decode_keyset(&[0x08, 0]).is_none());
    // an id beyond 32 bits
    assert!(decode_keyset(&[0x08, 0x80, 0x80, 0x80, 0x80, 0x10]).is_none());
    // a status with no meaning
    assert!(decode_keyset(&[0x12, 2, 0x10, 9]).is_none());
    // a varint with a needless trailing zero
    assert!(decode_keyset(&[0x08, 0x81, 0x00]).is_none());
    // invalid UTF-8 in a type URL
    assert!(decode_keyset(&[0x12, 5, 0x0a, 3, 0x0a, 1, 0xff]).is_none());
}

#[test]
fn sealed_keyset_reads_back() {
    let ks = keyset(1, vec![key(1, KeyStatusType::Enabled, KeyMaterialType::AsymmetricPublic)]);
    let h = Handle::new_with_no_secrets(ks).unwrap();
    let mut store = MemStore::default();
    h.write(&mut store, XorAead(7)).unwrap();
    let back = Handle::read(&mut store, &XorAead(7)).unwrap();
    assert_eq!(back.keyset_info().primary_key_id, 1);
    assert!(Handle::read(&mut store, &XorAead(8)).is_err());
    let mut empty = MemStore::default();
    assert_eq!(Handle::read(&mut empty, &XorAead(7)).err().unwrap().kind, ErrorKind::NotFound);
}

#[test]
fn destroyed_keys_are_summarized_and_sealed() {
    let mut gone = key(2, KeyStatusType::Destroyed, KeyMaterialType::Symmetric);
    gone.key_data = None;
    let ks = keyset(1, vec![key(1, KeyStatusType::Enabled, KeyMaterialType::AsymmetricPublic), gone]);
    let h = Handle::new_with_no_secrets(ks).unwrap();
    let info = h.keyset_info();
    assert_eq!(info.key_info[1].type_url, "");
    assert_eq!(info.key_info[1].status, KeyStatusType::Destroyed);
    assert_eq!(info.key_info[1].key_id, 2);
    let mut store = MemStore::default();
    h.write(&mut store, XorAead(3)).unwrap();
    let back = Handle::read(&mut store, &XorAead(3)).unwrap();
    assert_eq!(back.keyset_info().key_info.len(), 2);
}

#[test]
fn public_of_empty_keyset_is_empty() {
    let h = Handle::new_with_no_secrets(keyset(0, vec![])).unwrap();
    let m = TestManager { url: "test.Key", private: true };
    assert!(h.public(&m).unwrap().keyset_info().key_info.is_empty());
}
