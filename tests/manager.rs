use keysafe::error::{ErrorKind, TinkError};
use keysafe::handle::KeyManager;
use keysafe::keyset::validate;
use keysafe::manager::Manager;
use keysafe::proto::{Key, KeyData, KeyMaterialType, KeyStatusType, KeyTemplate, Keyset, OutputPrefixType};

struct Counter;

impl KeyManager<u8> for Counter {
    fn primitive(&self, k: &[u8]) -> Result<u8, TinkError> {
        Ok(k.len() as u8)
    }
    fn new_key_data(&self, f: &[u8]) -> Result<KeyData, TinkError> {
        Ok(KeyData { type_url: "c".to_string(), value: f.to_vec(), key_material_type: KeyMaterialType::Symmetric })
    }
    fn does_support(&self, url: &str) -> bool {
        url == "c"
    }
    fn supports_private_keys(&self) -> bool {
        false
    }
    fn public_key_data(&self, _: &[u8]) -> Result<KeyData, TinkError> {
        Err(TinkError::new(ErrorKind::InvalidArgument, "no"))
    }
}

fn template(prefix: OutputPrefixType) -> KeyTemplate {
    KeyTemplate { type_url: "c".to_string(), value: vec![5], output_prefix_type: prefix }
}

fn three_keys() -> Manager {
    let mut m = Manager::new();
    m.add_with_key_id(&template(OutputPrefixType::Tink), &Counter, 1, true).unwrap();
    m.add_with_key_id(&template(OutputPrefixType::Raw), &Counter, 2, false).unwrap();
    m.add_with_key_id(&template(OutputPrefixType::Legacy), &Counter, 3, false).unwrap();
    m
}

fn statuses(m: &Manager) -> Vec<KeyStatusType> {
    m.keyset().key.iter().map(|k| k.status).collect()
}

#[test]
fn add_keeps_order_and_primary() {
    let m = three_keys();
    let ks = m.keyset();
    assert_eq!(ks.primary_key_id, 1);
    let ids: Vec<u32> = ks.key.iter().map(|k| k.key_id).collect();
    assert_eq!(ids, vec![1, 2, 3]);
    assert!(validate(ks).is_ok());
}

#[test]
fn add_rejects_reused_zero_and_unknown() {
    let mut m = three_keys();
    assert_eq!(m.add_with_key_id(&template(OutputPrefixType::Tink), &Counter, 2, false).err().unwrap().kind, ErrorKind::AlreadyExists);
    assert_eq!(m.add_with_key_id(&template(OutputPrefixType::Tink), &Counter, 0, false).err().unwrap().kind, ErrorKind::InvalidArgument);
    assert!(m.add_with_key_id(&template(OutputPrefixType::UnknownPrefix), &Counter, 9, false).is_err());
    let other = KeyTemplate { type_url: "x".to_string(), ..template(OutputPrefixType::Tink) };
    assert_eq!(m.add_with_key_id(&other, &Counter, 9, false).err().unwrap().kind, ErrorKind::NotFound);
    assert_eq!(m.keyset().key.len(), 3);
}

#[test]
fn rotate_adds_a_fresh_primary() {
    let mut m = three_keys();
    m.rotate(&template(OutputPrefixType::Tink), &Counter).unwrap();
    let ks = m.keyset();
    assert_eq!(ks.key.len(), 4);
    assert_eq!(ks.primary_key_id, ks.key[3].key_id);
    assert_ne!(ks.primary_key_id, 0);
    assert!(validate(ks).is_ok());
}

#[test]
fn disable_enable_destroy_delete() {
    let mut m = three_keys();
    m.disable(2).unwrap();
    assert_eq!(statuses(&m), vec![KeyStatusType::Enabled, KeyStatusType::Disabled, KeyStatusType::Enabled]);
    m.enable(2).unwrap();
    assert_eq!(statuses(&m)[1], KeyStatusType::Enabled);
    m.destroy(3).unwrap();
    assert_eq!(statuses(&m)[2], KeyStatusType::Destroyed);
    assert!(m.keyset().key[2].key_data.is_none());
    // a destroyed key cannot come back
    assert_eq!(m.enable(3).err().unwrap().kind, ErrorKind::InvalidArgument);
    m.delete(2).unwrap();
    let ids: Vec<u32> = m.keyset().key.iter().map(|k| k.key_id).collect();
    assert_eq!(ids, vec![1, 3]);
    assert!(validate(m.keyset()).is_ok());
}

#[test]
fn the_primary_is_protected() {
    let mut m = three_keys();
    assert!(m.disable(1).is_err());
    assert!(m.destroy(1).is_err());
    assert!(m.delete(1).is_err());
    assert_eq!(m.delete(7).err().unwrap().kind, ErrorKind::NotFound);
    assert_eq!(m.enable(7).err().unwrap().kind, ErrorKind::NotFound);
    assert_eq!(statuses(&m), vec![KeyStatusType::Enabled; 3]);
}

#[test]
fn set_primary_needs_an_enabled_key() {
    let mut m = three_keys();
    m.disable(3).unwrap();
    assert!(m.set_primary(3).is_err());
    assert!(m.set_primary(8).is_err());
    m.set_primary(2).unwrap();
    assert_eq!(m.keyset().primary_key_id, 2);
    // the old primary can now be disabled
    m.disable(1).unwrap();
    let h = m.handle().unwrap();
    assert_eq!(h.keyset_info().primary_key_id, 2);
}

#[test]
fn handle_of_an_invalid_keyset_is_refused() {
    assert!(Manager::new().handle().is_err());
    let ks = Keyset {
        primary_key_id: 4,
        key: vec![Key { key_data: None, status: KeyStatusType::Enabled, key_id: 5, output_prefix_type: OutputPrefixType::Tink }],
    };
    assert!(Manager::from_keyset(ks).handle().is_err());
}
