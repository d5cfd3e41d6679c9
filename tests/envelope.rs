use aes_gcm::aead::{Aead as _, Payload};
use aes_gcm::KeyInit;
use keysafe::aead::WrappedAead;
use keysafe::manager::Manager;
use keysafe::envelope::{frame_envelope, split_envelope, KmsEnvelopeAead};
use keysafe::error::{ErrorKind, TinkError};
use keysafe::handle::{Aead, Handle, KeyManager};
use keysafe::proto::{KeyData, KeyMaterialType};
use keysafe::templates::{
    aes128_gcm_key_template, aes256_gcm_key_template, aes256_gcm_no_prefix_key_template, AES_GCM_TYPE_URL,
};
use rand::RngCore;

/// AES-GCM with a random nonce in front of the ciphertext.
struct Gcm(Vec<u8>);

fn err(msg: &str) -> TinkError {
    TinkError::new(ErrorKind::InvalidCiphertext, msg)
}

impl Aead for Gcm {
    fn encrypt(&self, plaintext: &[u8], aad: &[u8]) -> Result<Vec<u8>, TinkError> {
        let mut nonce = [0u8; 12];
        rand::thread_rng().fill_bytes(&mut nonce);
        let payload = Payload { msg: plaintext, aad };
        let ct = match self.0.len() {
            16 => aes_gcm::Aes128Gcm::new_from_slice(&self.0).unwrap().encrypt((&nonce).into(), payload),
            _ => aes_gcm::Aes256Gcm::new_from_slice(&self.0).unwrap().encrypt((&nonce).into(), payload),
        }
        .map_err(|_| err("encrypt"))?;
        let mut out = nonce.to_vec();
        out.extend(ct);
        Ok(out)
    }
    fn decrypt(&self, ciphertext: &[u8], aad: &[u8]) -> Result<Vec<u8>, TinkError> {
        if ciphertext.len() < 12 {
            return Err(err("short"));
        }
        let nonce: [u8; 12] = ciphertext[..12].try_into().unwrap();
        let payload = Payload { msg: &ciphertext[12..], aad };
        match self.0.len() {
            16 => aes_gcm::Aes128Gcm::new_from_slice(&self.0).unwrap().decrypt((&nonce).into(), payload),
            _ => aes_gcm::Aes256Gcm::new_from_slice(&self.0).unwrap().decrypt((&nonce).into(), payload),
        }
        .map_err(|_| err("decrypt"))
    }
}

/// AES-GCM keys whose serialization is the raw key; the format's second
/// byte is the key size.
struct GcmManager;

impl KeyManager<Gcm> for GcmManager {
    fn primitive(&self, serialized_key: &[u8]) -> Result<Gcm, TinkError> {
        match serialized_key.len() {
            16 | 32 => Ok(Gcm(serialized_key.to_vec())),
            _ => Err(TinkError::new(ErrorKind::InvalidArgument, "key size")),
        }
    }
    fn new_key_data(&self, serialized_format: &[u8]) -> Result<KeyData, TinkError> {
        let mut key = vec![0u8; serialized_format[1] as usize];
        rand::thread_rng().fill_bytes(&mut key);
        Ok(KeyData { type_url: AES_GCM_TYPE_URL.to_string(), value: key, key_material_type: KeyMaterialType::Symmetric })
    }
    fn does_support(&self, type_url: &str) -> bool {
        type_url == AES_GCM_TYPE_URL
    }
    fn supports_private_keys(&self) -> bool {
        false
    }
    fn public_key_data(&self, _: &[u8]) -> Result<KeyData, TinkError> {
        Err(TinkError::new(ErrorKind::InvalidArgument, "symmetric"))
    }
}

fn kek() -> Gcm {
    let kd = GcmManager.new_key_data(&aes256_gcm_key_template().value).unwrap();
    GcmManager.primitive(&kd.value).unwrap()
}

#[test]
fn envelope_hello_round_trip_and_dek_bit_flip() {
    let a = KmsEnvelopeAead::new(aes128_gcm_key_template(), kek());
    let ct = a.encrypt(&GcmManager, b"hello", b"ad").unwrap();
    assert_eq!(a.decrypt(&GcmManager, &ct, b"ad").unwrap(), b"hello".to_vec());
    // the sealed data key: 12-byte nonce, 16-byte key, 16-byte tag
    assert_eq!(&ct[..4], &[0, 0, 0, 44]);
    let mut bad = ct.clone();
    bad[4 + 20] ^= 1;
    assert_eq!(a.decrypt(&GcmManager, &bad, b"ad").err().unwrap().kind, ErrorKind::InvalidCiphertext);
    assert!(a.decrypt(&GcmManager, &ct, b"other").is_err());
}

#[test]
fn envelope_prefix_out_of_range() {
    let a = KmsEnvelopeAead::new(aes128_gcm_key_template(), kek());
    let ct = a.encrypt(&GcmManager, b"", b"").unwrap();
    let mut bad = ct.clone();
    bad[0] = 0xff;
    assert_eq!(a.decrypt(&GcmManager, &bad, b"").err().unwrap().kind, ErrorKind::InvalidCiphertext);
    assert_eq!(a.decrypt(&GcmManager, &[0, 0, 0], b"").err().unwrap().kind, ErrorKind::InvalidCiphertext);
}

#[test]
fn frame_and_split() {
    let e = frame_envelope(&[1, 2, 3], &[9, 9]).unwrap();
    assert_eq!(e, vec![0, 0, 0, 3, 1, 2, 3, 9, 9]);
    let (d, p) = split_envelope(&e).unwrap();
    assert_eq!(d, vec![1, 2, 3]);
    assert_eq!(p, vec![9, 9]);
    let (d, p) = split_envelope(&[0, 0, 0, 0]).unwrap();
    assert!(d.is_empty() && p.is_empty());
    let long = vec![7u8; 300];
    let e = frame_envelope(&long, &[]).unwrap();
    assert_eq!(&e[..4], &[0, 0, 1, 44]);
    assert_eq!(split_envelope(&e[..303]).err().unwrap().kind, ErrorKind::InvalidCiphertext);
}

#[test]
fn aes256_gcm_template_handle_encrypts_and_decrypts() {
    let h = Handle::new(&aes256_gcm_key_template(), &GcmManager).unwrap();
    let ps = h.primitives(&GcmManager).unwrap();
    let primary = &ps.entries[ps.primary.unwrap()];
    assert_eq!(primary.prefix.len(), 5);
    assert_eq!(primary.prefix[0], 1);
    let a = &primary.primitive;
    let ct = a
        .encrypt(b"this data needs to be encrypted", b"this data needs to be authenticated, but not encrypted")
        .unwrap();
    let pt = a.decrypt(&ct, b"this data needs to be authenticated, but not encrypted").unwrap();
    assert_eq!(b"this data needs to be encrypted".to_vec(), pt);
    let empty = a.encrypt(b"", b"").unwrap();
    assert_eq!(a.decrypt(&empty, b"").unwrap(), Vec::<u8>::new());
}

#[test]
fn wrapped_aead_example() {
    let h = Handle::new(&aes256_gcm_key_template(), &GcmManager).unwrap();
    let a = WrappedAead::new(h.primitives(&GcmManager).unwrap()).unwrap();
    let ct = a
        .encrypt(b"this data needs to be encrypted", b"this data needs to be authenticated, but not encrypted")
        .unwrap();
    assert_eq!(ct[0], 1);
    let pt = a.decrypt(&ct, b"this data needs to be authenticated, but not encrypted").unwrap();
    assert_eq!(b"this data needs to be encrypted".to_vec(), pt);
    assert_eq!(a.decrypt(&ct, b"").err().unwrap().kind, ErrorKind::InvalidCiphertext);
    assert_eq!(a.decrypt(&ct[..4], b"").err().unwrap().kind, ErrorKind::InvalidCiphertext);
}

#[test]
fn wrapped_aead_after_rotation_and_raw_fallback() {
    let mut m = Manager::new();
    m.rotate(&aes128_gcm_key_template(), &GcmManager).unwrap();
    let h1 = m.keyset().clone();
    let old = WrappedAead::new(Manager::from_keyset(h1).handle().unwrap().primitives(&GcmManager).unwrap()).unwrap();
    let old_ct = old.encrypt(b"old", b"").unwrap();
    m.rotate(&aes256_gcm_no_prefix_key_template(), &GcmManager).unwrap();
    let h2 = m.handle().unwrap();
    let a = WrappedAead::new(h2.primitives(&GcmManager).unwrap()).unwrap();
    let new_ct = a.encrypt(b"new", b"").unwrap();
    // the new primary has no prefix: 12-byte nonce, 3 bytes, 16-byte tag
    assert_eq!(new_ct.len(), 12 + 3 + 16);
    assert_eq!(a.decrypt(&old_ct, b"").unwrap(), b"old".to_vec());
    assert_eq!(a.decrypt(&new_ct, b"").unwrap(), b"new".to_vec());
    assert!(old.decrypt(&new_ct, b"").is_err());
}
