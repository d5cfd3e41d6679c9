use keysafe::proto::{KeyTemplate, OutputPrefixType};
use keysafe::templates::{
    aes128_ctr_hmac_sha256_key_template, aes128_gcm_key_template, aes128_gcm_siv_key_template,
    aes256_ctr_hmac_sha256_key_template, aes256_gcm_key_template, aes256_gcm_no_prefix_key_template,
    aes256_gcm_siv_key_template, aes256_gcm_siv_no_prefix_key_template, cha_cha20_poly1305_key_template,
    kms_envelope_aead_key_template, x_cha_cha20_poly1305_key_template, AES_CTR_HMAC_AEAD_TYPE_URL,
    AES_GCM_SIV_TYPE_URL, AES_GCM_TYPE_URL, CHA_CHA20_POLY1305_TYPE_URL, KMS_ENVELOPE_AEAD_TYPE_URL,
    X_CHA_CHA20_POLY1305_TYPE_URL,
};

#[test]
fn aes_gcm_templates_encode_key_size() {
    let t = aes128_gcm_key_template();
    assert_eq!(t.type_url, AES_GCM_TYPE_URL);
    assert_eq!(t.value, vec![0x10, 16]);
    assert_eq!(t.output_prefix_type, OutputPrefixType::Tink);
    let t = aes256_gcm_key_template();
    assert_eq!(t.value, vec![0x10, 32]);
    assert_eq!(t.output_prefix_type, OutputPrefixType::Tink);
    let t = aes256_gcm_no_prefix_key_template();
    assert_eq!(t.value, vec![0x10, 32]);
    assert_eq!(t.output_prefix_type, OutputPrefixType::Raw);
}

#[test]
fn aes_gcm_siv_templates_encode_key_size() {
    let t = aes128_gcm_siv_key_template();
    assert_eq!(t.type_url, AES_GCM_SIV_TYPE_URL);
    assert_eq!(t.value, vec![0x10, 16]);
    let t = aes256_gcm_siv_key_template();
    assert_eq!(t.value, vec![0x10, 32]);
    assert_eq!(t.output_prefix_type, OutputPrefixType::Tink);
    let t = aes256_gcm_siv_no_prefix_key_template();
    assert_eq!(t.output_prefix_type, OutputPrefixType::Raw);
}

#[test]
fn aes_ctr_hmac_templates_nest_formats() {
    let t = aes128_ctr_hmac_sha256_key_template();
    assert_eq!(t.type_url, AES_CTR_HMAC_AEAD_TYPE_URL);
    assert_eq!(
        t.value,
        vec![0x0a, 6, 0x0a, 2, 0x08, 16, 0x10, 16, 0x12, 8, 0x0a, 4, 0x08, 3, 0x10, 16, 0x10, 32]
    );
    let t = aes256_ctr_hmac_sha256_key_template();
    assert_eq!(
        t.value,
        vec![0x0a, 6, 0x0a, 2, 0x08, 16, 0x10, 32, 0x12, 8, 0x0a, 4, 0x08, 3, 0x10, 32, 0x10, 32]
    );
    assert_eq!(t.output_prefix_type, OutputPrefixType::Tink);
}

#[test]
fn chacha_templates_have_no_format() {
    let t = cha_cha20_poly1305_key_template();
    assert_eq!(t.type_url, CHA_CHA20_POLY1305_TYPE_URL);
    assert!(t.value.is_empty());
    let t = x_cha_cha20_poly1305_key_template();
    assert_eq!(t.type_url, X_CHA_CHA20_POLY1305_TYPE_URL);
    assert!(t.value.is_empty());
    assert_eq!(t.output_prefix_type, OutputPrefixType::Tink);
}

#[test]
fn kms_envelope_template_embeds_dek_template() {
    let t = kms_envelope_aead_key_template("kms://k", aes128_gcm_key_template());
    assert_eq!(t.type_url, KMS_ENVELOPE_AEAD_TYPE_URL);
    let url = AES_GCM_TYPE_URL.as_bytes();
    let mut dek = vec![0x0a, url.len() as u8];
    dek.extend_from_slice(url);
    dek.extend_from_slice(&[0x12, 2, 0x10, 16, 0x18, 1]);
    let mut want = vec![0x0a, 7];
    want.extend_from_slice(b"kms://k");
    want.push(0x12);
    want.push(dek.len() as u8);
    want.extend_from_slice(&dek);
    assert_eq!(t.value, want);
}

#[test]
fn kms_envelope_template_with_raw_dek_and_empty_uri() {
    let dek = KeyTemplate {
        type_url: String::new(),
        value: vec![],
        output_prefix_type: OutputPrefixType::Raw,
    };
    let t = kms_envelope_aead_key_template("", dek);
    assert_eq!(t.value, vec![0x12, 2, 0x18, 3]);
}
