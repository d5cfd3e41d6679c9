//! Ready-made templates for the AEAD key families.
use vstd::prelude::*;
use vstd::utf8::encode_utf8;
use crate::proto::{HashType, KeyTemplate, OutputPrefixType};
use crate::wire::{bytes_field, delimited, put_bytes_field, put_delimited, put_uint_field, uint_field};

verus! {

pub const AES_GCM_TYPE_URL: &'static str = "type.googleapis.com/google.crypto.tink.AesGcmKey";
pub const AES_GCM_SIV_TYPE_URL: &'static str = "type.googleapis.com/google.crypto.tink.AesGcmSivKey";
pub const AES_CTR_HMAC_AEAD_TYPE_URL: &'static str = "type.googleapis.com/google.crypto.tink.AesCtrHmacAeadKey";
pub const CHA_CHA20_POLY1305_TYPE_URL: &'static str = "type.googleapis.com/google.crypto.tink.ChaCha20Poly1305Key";
pub const X_CHA_CHA20_POLY1305_TYPE_URL: &'static str = "type.googleapis.com/google.crypto.tink.XChaCha20Poly1305Key";
pub const KMS_ENVELOPE_AEAD_TYPE_URL: &'static str = "type.googleapis.com/google.crypto.tink.KmsEnvelopeAeadKey";

pub const AES_GCM_KEY_VERSION: u32 = 0;
pub const AES_GCM_SIV_KEY_VERSION: u32 = 0;
pub const AES_CTR_HMAC_AEAD_KEY_VERSION: u32 = 0;

/// Encoding of a key template.
pub open spec fn key_template_bytes(t: KeyTemplate) -> Seq<u8> {
    bytes_field(1, encode_utf8(t.type_url@)) + bytes_field(2, t.value@)
        + uint_field(3, t.output_prefix_type.spec_value() as nat)
}

/// Encoding of an AES-GCM key format.
pub open spec fn aes_gcm_key_format(key_size: nat, version: nat) -> Seq<u8> {
    uint_field(2, key_size) + uint_field(3, version)
}

/// Encoding of an AES-GCM-SIV key format.
pub open spec fn aes_gcm_siv_key_format(key_size: nat, version: nat) -> Seq<u8> {
    uint_field(1, version) + uint_field(2, key_size)
}

/// Encoding of an AES-CTR key format: parameters (IV size), then key size.
pub open spec fn aes_ctr_key_format(iv_size: nat, key_size: nat) -> Seq<u8> {
    delimited(1, uint_field(1, iv_size)) + uint_field(2, key_size)
}

/// Encoding of an HMAC key format: parameters (hash, tag size), key size, version.
pub open spec fn hmac_key_format(hash: nat, tag_size: nat, key_size: nat, version: nat) -> Seq<u8> {
    delimited(1, uint_field(1, hash) + uint_field(2, tag_size)) + uint_field(2, key_size)
        + uint_field(3, version)
}

/// Encoding of an AES-CTR-HMAC-AEAD key format.
pub open spec fn aes_ctr_hmac_aead_key_format(
    aes_key_size: nat,
    iv_size: nat,
    hmac_key_size: nat,
    tag_size: nat,
    hash: nat,
) -> Seq<u8> {
    delimited(1, aes_ctr_key_format(iv_size, aes_key_size)) + delimited(
        2,
        hmac_key_format(hash, tag_size, hmac_key_size, AES_CTR_HMAC_AEAD_KEY_VERSION as nat),
    )
}

/// Encoding of a KMS envelope key format: KEK URI, then the DEK template.
pub open spec fn kms_envelope_key_format(uri: Seq<char>, dek: KeyTemplate) -> Seq<u8> {
    bytes_field(1, encode_utf8(uri)) + delimited(2, key_template_bytes(dek))
}

/// Appends the encoding of a key template.
pub fn put_key_template(buf: &mut Vec<u8>, t: &KeyTemplate)
    ensures
        final(buf)@ == old(buf)@ + key_template_bytes(*t),
{
    put_bytes_field(buf, 1, t.type_url.as_str().as_bytes());
    put_bytes_field(buf, 2, t.value.as_slice());
    put_uint_field(buf, 3, t.output_prefix_type.value() as u64);
    assert(final(buf)@ =~= old(buf)@ + key_template_bytes(*t));
}

/// Return a template that generates an AES-128-GCM key with the Tink prefix.
pub fn aes128_gcm_key_template() -> (t: KeyTemplate)
    ensures
        t.type_url@ == AES_GCM_TYPE_URL@,
        t.value@ == aes_gcm_key_format(16, AES_GCM_KEY_VERSION as nat),
        t.output_prefix_type == OutputPrefixType::Tink,
{
    create_aes_gcm_key_template(16, OutputPrefixType::Tink)
}

/// Return a template that generates an AES-256-GCM key with the Tink prefix.
pub fn aes256_gcm_key_template() -> (t: KeyTemplate)
    ensures
        t.type_url@ == AES_GCM_TYPE_URL@,
        t.value@ == aes_gcm_key_format(32, AES_GCM_KEY_VERSION as nat),
        t.output_prefix_type == OutputPrefixType::Tink,
{
    create_aes_gcm_key_template(32, OutputPrefixType::Tink)
}

/// Return a template that generates an AES-256-GCM key with no prefix.
pub fn aes256_gcm_no_prefix_key_template() -> (t: KeyTemplate)
    ensures
        t.type_url@ == AES_GCM_TYPE_URL@,
        t.value@ == aes_gcm_key_format(32, AES_GCM_KEY_VERSION as nat),
        t.output_prefix_type == OutputPrefixType::Raw,
{
    create_aes_gcm_key_template(32, OutputPrefixType::Raw)
}

/// Return a template that generates an AES-128-GCM-SIV key with the Tink prefix.
pub fn aes128_gcm_siv_key_template() -> (t: KeyTemplate)
    ensures
        t.type_url@ == AES_GCM_SIV_TYPE_URL@,
        t.value@ == aes_gcm_siv_key_format(16, AES_GCM_SIV_KEY_VERSION as nat),
        t.output_prefix_type == OutputPrefixType::Tink,
{
    create_aes_gcm_siv_key_template(16, OutputPrefixType::Tink)
}

/// Return a template that generates an AES-256-GCM-SIV key with the Tink prefix.
pub fn aes256_gcm_siv_key_template() -> (t: KeyTemplate)
    ensures
        t.type_url@ == AES_GCM_SIV_TYPE_URL@,
        t.value@ == aes_gcm_siv_key_format(32, AES_GCM_SIV_KEY_VERSION as nat),
        t.output_prefix_type == OutputPrefixType::Tink,
{
    create_aes_gcm_siv_key_template(32, OutputPrefixType::Tink)
}

/// Return a template that generates an AES-256-GCM-SIV key with no prefix.
pub fn aes256_gcm_siv_no_prefix_key_template() -> (t: KeyTemplate)
    ensures
        t.type_url@ == AES_GCM_SIV_TYPE_URL@,
        t.value@ == aes_gcm_siv_key_format(32, AES_GCM_SIV_KEY_VERSION as nat),
        t.output_prefix_type == OutputPrefixType::Raw,
{
    create_aes_gcm_siv_key_template(32, OutputPrefixType::Raw)
}

/// Return a template for AES-128-CTR (16-byte IV) with HMAC-SHA256 (32-byte key, 16-byte tag).
pub fn aes128_ctr_hmac_sha256_key_template() -> (t: KeyTemplate)
    ensures
        t.type_url@ == AES_CTR_HMAC_AEAD_TYPE_URL@,
        t.value@ == aes_ctr_hmac_aead_key_format(16, 16, 32, 16, HashType::Sha256.spec_value() as nat),
        t.output_prefix_type == OutputPrefixType::Tink,
{
    create_aes_ctr_hmac_aead_key_template(16, 16, 32, 16, HashType::Sha256)
}

/// Return a template for AES-256-CTR (16-byte IV) with HMAC-SHA256 (32-byte key, 32-byte tag).
pub fn aes256_ctr_hmac_sha256_key_template() -> (t: KeyTemplate)
    ensures
        t.type_url@ == AES_CTR_HMAC_AEAD_TYPE_URL@,
        t.value@ == aes_ctr_hmac_aead_key_format(32, 16, 32, 32, HashType::Sha256.spec_value() as nat),
        t.output_prefix_type == OutputPrefixType::Tink,
{
    create_aes_ctr_hmac_aead_key_template(32, 16, 32, 32, HashType::Sha256)
}

/// Return a template that generates a ChaCha20-Poly1305 key; it needs no format.
pub fn cha_cha20_poly1305_key_template() -> (t: KeyTemplate)
    ensures
        t.type_url@ == CHA_CHA20_POLY1305_TYPE_URL@,
        t.value@ == Seq::<u8>::empty(),
        t.output_prefix_type == OutputPrefixType::Tink,
{
    KeyTemplate {
        value: Vec::new(),
        type_url: CHA_CHA20_POLY1305_TYPE_URL.to_string(),
        output_prefix_type: OutputPrefixType::Tink,
    }
}

/// Return a template that generates an XChaCha20-Poly1305 key; it needs no format.
pub fn x_cha_cha20_poly1305_key_template() -> (t: KeyTemplate)
    ensures
        t.type_url@ == X_CHA_CHA20_POLY1305_TYPE_URL@,
        t.value@ == Seq::<u8>::empty(),
        t.output_prefix_type == OutputPrefixType::Tink,
{
    KeyTemplate {
        value: Vec::new(),
        type_url: X_CHA_CHA20_POLY1305_TYPE_URL.to_string(),
        output_prefix_type: OutputPrefixType::Tink,
    }
}

/// Return a template for envelope encryption under the remote KEK at `uri`,
/// with data keys made from `dek_t`.
pub fn kms_envelope_aead_key_template(uri: &str, dek_t: KeyTemplate) -> (t: KeyTemplate)
    ensures
        t.type_url@ == KMS_ENVELOPE_AEAD_TYPE_URL@,
        t.value@ == kms_envelope_key_format(uri@, dek_t),
        t.output_prefix_type == OutputPrefixType::Tink,
{
    let mut serialized_format: Vec<u8> = Vec::new();
    put_bytes_field(&mut serialized_format, 1, uri.as_bytes());
    let mut dek: Vec<u8> = Vec::new();
    put_key_template(&mut dek, &dek_t);
    put_delimited(&mut serialized_format, 2, dek.as_slice());
    assert(serialized_format@ =~= kms_envelope_key_format(uri@, dek_t));
    KeyTemplate {
        value: serialized_format,
        type_url: KMS_ENVELOPE_AEAD_TYPE_URL.to_string(),
        output_prefix_type: OutputPrefixType::Tink,
    }
}

/// An AES-GCM template with the given key size in bytes.
fn create_aes_gcm_key_template(key_size: u32, output_prefix_type: OutputPrefixType) -> (t: KeyTemplate)
    ensures
        t.type_url@ == AES_GCM_TYPE_URL@,
        t.value@ == aes_gcm_key_format(key_size as nat, AES_GCM_KEY_VERSION as nat),
        t.output_prefix_type == output_prefix_type,
{
    let mut serialized_format: Vec<u8> = Vec::new();
    put_uint_field(&mut serialized_format, 2, key_size as u64);
    put_uint_field(&mut serialized_format, 3, AES_GCM_KEY_VERSION as u64);
    assert(serialized_format@ =~= aes_gcm_key_format(key_size as nat, AES_GCM_KEY_VERSION as nat));
    KeyTemplate {
        type_url: AES_GCM_TYPE_URL.to_string(),
        value: serialized_format,
        output_prefix_type,
    }
}

/// An AES-GCM-SIV template with the given key size in bytes.
fn create_aes_gcm_siv_key_template(key_size: u32, output_prefix_type: OutputPrefixType) -> (t: KeyTemplate)
    ensures
        t.type_url@ == AES_GCM_SIV_TYPE_URL@,
        t.value@ == aes_gcm_siv_key_format(key_size as nat, AES_GCM_SIV_KEY_VERSION as nat),
        t.output_prefix_type == output_prefix_type,
{
    let mut serialized_format: Vec<u8> = Vec::new();
    put_uint_field(&mut serialized_format, 1, AES_GCM_SIV_KEY_VERSION as u64);
    put_uint_field(&mut serialized_format, 2, key_size as u64);
    assert(serialized_format@ =~= aes_gcm_siv_key_format(key_size as nat, AES_GCM_SIV_KEY_VERSION as nat));
    KeyTemplate {
        type_url: AES_GCM_SIV_TYPE_URL.to_string(),
        value: serialized_format,
        output_prefix_type,
    }
}

/// An AES-CTR-HMAC-AEAD template with the given parameters.
fn create_aes_ctr_hmac_aead_key_template(
    aes_key_size: u32,
    iv_size: u32,
    hmac_key_size: u32,
    tag_size: u32,
    hash: HashType,
) -> (t: KeyTemplate)
    ensures
        t.type_url@ == AES_CTR_HMAC_AEAD_TYPE_URL@,
        t.value@ == aes_ctr_hmac_aead_key_format(
            aes_key_size as nat,
            iv_size as nat,
            hmac_key_size as nat,
            tag_size as nat,
            hash.spec_value() as nat,
        ),
        t.output_prefix_type == OutputPrefixType::Tink,
{
    let mut ctr_params: Vec<u8> = Vec::new();
    put_uint_field(&mut ctr_params, 1, iv_size as u64);
    let mut ctr_format: Vec<u8> = Vec::new();
    put_delimited(&mut ctr_format, 1, ctr_params.as_slice());
    put_uint_field(&mut ctr_format, 2, aes_key_size as u64);

    let mut hmac_params: Vec<u8> = Vec::new();
    put_uint_field(&mut hmac_params, 1, hash.value() as u64);
    put_uint_field(&mut hmac_params, 2, tag_size as u64);
    let mut hmac_format: Vec<u8> = Vec::new();
    put_delimited(&mut hmac_format, 1, hmac_params.as_slice());
    put_uint_field(&mut hmac_format, 2, hmac_key_size as u64);
    put_uint_field(&mut hmac_format, 3, AES_CTR_HMAC_AEAD_KEY_VERSION as u64);

    let mut serialized_format: Vec<u8> = Vec::new();
    put_delimited(&mut serialized_format, 1, ctr_format.as_slice());
    put_delimited(&mut serialized_format, 2, hmac_format.as_slice());
    assert(ctr_params@ =~= uint_field(1, iv_size as nat));
    assert(hmac_params@ =~= uint_field(1, hash.spec_value() as nat) + uint_field(2, tag_size as nat));
    assert(ctr_format@ =~= aes_ctr_key_format(iv_size as nat, aes_key_size as nat));
    assert(serialized_format@ =~= aes_ctr_hmac_aead_key_format(
        aes_key_size as nat,
        iv_size as nat,
        hmac_key_size as nat,
        tag_size as nat,
        hash.spec_value() as nat,
    ));
    KeyTemplate {
        value: serialized_format,
        type_url: AES_CTR_HMAC_AEAD_TYPE_URL.to_string(),
        output_prefix_type: OutputPrefixType::Tink,
    }
}

} // verus!
