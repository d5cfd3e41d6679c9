use keysafe::error::ErrorKind;
use keysafe::proto::HashType;
use keysafe::streaming::{segment_nonce_bytes, AesGcmHkdf};

fn zero_key_primitive(key_size: usize, segment: usize, offset: usize) -> AesGcmHkdf {
    AesGcmHkdf::new(&[0u8; 32], HashType::Sha256, key_size, segment, offset).unwrap()
}

#[test]
fn new_rejects_bad_parameters() {
    assert!(AesGcmHkdf::new(&[0u8; 15], HashType::Sha256, 16, 4096, 0).is_err());
    assert!(AesGcmHkdf::new(&[0u8; 16], HashType::Sha256, 32, 4096, 0).is_err());
    assert!(AesGcmHkdf::new(&[0u8; 32], HashType::Sha256, 24, 4096, 0).is_err());
    // header 1 + 16 + 7 = 24, plus tag 16: the segment must exceed 40 bytes
    let e = AesGcmHkdf::new(&[0u8; 32], HashType::Sha256, 16, 40, 0).err().unwrap();
    assert_eq!(e.kind, ErrorKind::InvalidArgument);
    assert!(AesGcmHkdf::new(&[0u8; 32], HashType::Sha256, 16, 41, 0).is_ok());
    assert!(AesGcmHkdf::new(&[0u8; 32], HashType::Sha256, 16, 50, usize::MAX).is_err());
}

#[test]
fn header_length_is_one_plus_key_plus_prefix() {
    assert_eq!(zero_key_primitive(16, 4096, 0).header_length(), 24);
    assert_eq!(zero_key_primitive(32, 4096, 0).header_length(), 40);
    assert_eq!(zero_key_primitive(32, 4096, 0).main_key(), &[0u8; 32][..]);
}

#[test]
fn nonce_layout() {
    let n = segment_nonce_bytes(&[9, 9, 9, 9, 9, 9, 9], 0x01020304, true);
    assert_eq!(n, vec![9, 9, 9, 9, 9, 9, 9, 1, 2, 3, 4, 1]);
    let n = segment_nonce_bytes(&[0; 7], 0, false);
    assert_eq!(n, vec![0; 12]);
}

#[test]
fn zero_key_ten_thousand_bytes_round_trip() {
    let p = zero_key_primitive(32, 4096, 0);
    let pt = vec![0x41u8; 10_000];
    let ct = p.encrypt_with(&[7u8; 32], &[1, 2, 3, 4, 5, 6, 7], b"aad", &pt).unwrap();
    // header 40; segments: 4040, 4080, the rest 1880, each with a 16-byte tag
    assert_eq!(ct.len(), 40 + 10_000 + 3 * 16);
    assert_eq!(ct[0], 40);
    assert_eq!(&ct[1..33], &[7u8; 32][..]);
    assert_eq!(p.decrypt(&ct, b"aad").unwrap(), pt);
}

#[test]
fn round_trip_with_offset_and_small_segments() {
    for key_size in [16usize, 32] {
        let p = zero_key_primitive(key_size, 64 + key_size, 5);
        for len in [0usize, 1, 10, 31, 32, 33, 100, 257] {
            let pt: Vec<u8> = (0..len).map(|i| i as u8).collect();
            let ct = p.encrypt_with(&vec![3u8; key_size], &[0; 7], b"", &pt).unwrap();
            assert_eq!(p.decrypt(&ct, b"").unwrap(), pt);
        }
    }
}

#[test]
fn empty_plaintext_is_one_tag() {
    let p = zero_key_primitive(16, 4096, 0);
    let ct = p.encrypt_with(&[0u8; 16], &[0u8; 7], b"", b"").unwrap();
    assert_eq!(ct.len(), 24 + 16);
    assert_eq!(p.decrypt(&ct, b"").unwrap(), Vec::<u8>::new());
}

#[test]
fn wrong_aad_fails() {
    let p = zero_key_primitive(16, 4096, 0);
    let ct = p.encrypt_with(&[0u8; 16], &[0u8; 7], b"one", b"hello").unwrap();
    assert_eq!(p.decrypt(&ct, b"two").err().unwrap().kind, ErrorKind::InvalidCiphertext);
}

#[test]
fn header_length_off_by_one_is_rejected() {
    let p = zero_key_primitive(32, 4096, 0);
    let mut ct = p.encrypt_with(&[0u8; 32], &[0u8; 7], b"", b"data").unwrap();
    ct[0] = 32 + 7;
    assert_eq!(p.decrypt(&ct, b"").err().unwrap().kind, ErrorKind::InvalidCiphertext);
    assert_eq!(p.decrypt(&[], b"").err().unwrap().kind, ErrorKind::InvalidCiphertext);
}

#[test]
fn missing_last_segment_is_rejected() {
    let p = zero_key_primitive(32, 4096, 0);
    let pt = vec![0x41u8; 10_000];
    let ct = p.encrypt_with(&[0u8; 32], &[0u8; 7], b"", &pt).unwrap();
    // header and the first full ciphertext segment, nothing after
    assert_eq!(p.decrypt(&ct[..4096], b"").err().unwrap().kind, ErrorKind::InvalidCiphertext);
    // a whole trailing segment removed
    assert_eq!(p.decrypt(&ct[..4096 + 4096], b"").err().unwrap().kind, ErrorKind::InvalidCiphertext);
    // the last bytes removed
    assert!(p.decrypt(&ct[..ct.len() - 1], b"").is_err());
}

#[test]
fn every_flipped_bit_is_detected() {
    let p = zero_key_primitive(16, 64, 0);
    let pt: Vec<u8> = (0..100u8).collect();
    let ct = p.encrypt_with(&[5u8; 16], &[6u8; 7], b"x", &pt).unwrap();
    for i in 1..ct.len() {
        for bit in 0..8 {
            let mut bad = ct.clone();
            bad[i] ^= 1 << bit;
            assert_eq!(p.decrypt(&bad, b"x").err().unwrap().kind, ErrorKind::InvalidCiphertext);
        }
    }
}

#[test]
fn other_hashes_derive_keys() {
    for h in [HashType::Sha1, HashType::Sha512] {
        let p = AesGcmHkdf::new(&[1u8; 16], h, 16, 100, 0).unwrap();
        let ct = p.encrypt_with(&[2u8; 16], &[0u8; 7], b"", b"abc").unwrap();
        assert_eq!(p.decrypt(&ct, b"").unwrap(), b"abc".to_vec());
    }
    for h in [HashType::Sha224, HashType::Sha384] {
        let p = AesGcmHkdf::new(&[1u8; 16], h, 16, 100, 0).unwrap();
        let ct = p.encrypt_with(&[2u8; 16], &[0u8; 7], b"", b"abc").unwrap();
        assert_eq!(p.decrypt(&ct, b"").unwrap(), b"abc".to_vec());
    }
    let p = AesGcmHkdf::new(&[1u8; 16], HashType::UnknownHash, 16, 100, 0).unwrap();
    assert!(p.encrypt_with(&[2u8; 16], &[0u8; 7], b"", b"abc").is_err());
}

#[test]
fn different_hashes_give_different_streams() {
    let a = AesGcmHkdf::new(&[1u8; 16], HashType::Sha256, 16, 100, 0).unwrap();
    let b = AesGcmHkdf::new(&[1u8; 16], HashType::Sha1, 16, 100, 0).unwrap();
    let ca = a.encrypt_with(&[2u8; 16], &[0u8; 7], b"", b"abc").unwrap();
    let cb = b.encrypt_with(&[2u8; 16], &[0u8; 7], b"", b"abc").unwrap();
    assert_ne!(ca, cb);
    // the segment is not the plaintext in the clear
    assert_ne!(&ca[24..27], b"abc");
}

#[test]
fn wrong_salt_length_is_refused() {
    let p = zero_key_primitive(16, 4096, 0);
    assert!(p.encrypt_with(&[0u8; 15], &[0u8; 7], b"", b"").is_err());
    assert!(p.encrypt_with(&[0u8; 16], &[0u8; 6], b"", b"").is_err());
}

#[test]
fn random_salt_streams_round_trip_and_differ() {
    let p = zero_key_primitive(16, 4096, 0);
    let a = p.encrypt(b"ad", b"same plaintext").unwrap();
    let b = p.encrypt(b"ad", b"same plaintext").unwrap();
    assert_ne!(a, b);
    assert_eq!(p.decrypt(&a, b"ad").unwrap(), b"same plaintext".to_vec());
    assert_eq!(p.decrypt(&b, b"ad").unwrap(), b"same plaintext".to_vec());
    let q = AesGcmHkdf::new(&[1u8; 16], HashType::UnknownHash, 16, 100, 0).unwrap();
    assert!(q.encrypt(b"", b"x").is_err());
}

#[test]
fn writer_pieces_form_a_stream() {
    let p = zero_key_primitive(16, 64, 3);
    let pt: Vec<u8> = (0..300u32).map(|i| (i * 7) as u8).collect();
    for chunk in [1usize, 5, 21, 37, 48, 300] {
        let (mut w, header) = p.new_encrypting_writer(b"ad").unwrap();
        let mut ct = header.clone();
        for piece in pt.chunks(chunk) {
            ct.extend(w.write(piece).unwrap());
        }
        ct.extend(w.close().unwrap());
        assert_eq!(p.decrypt(&ct, b"ad").unwrap(), pt);
        // same framing as the one-shot form: same length
        assert_eq!(ct.len(), p.encrypt(b"ad", &pt).unwrap().len());
    }
}

#[test]
fn writer_holds_back_a_full_segment_until_more_comes() {
    let p = zero_key_primitive(16, 64, 0);
    // first segment holds 64 - 16 - 24 = 24 plaintext bytes
    let (mut w, header) = p.new_encrypting_writer(b"").unwrap();
    assert_eq!(header.len(), 24);
    assert!(w.write(&[1u8; 24]).unwrap().is_empty());
    let first = w.write(&[2u8; 1]).unwrap();
    assert_eq!(first.len(), 24 + 16);
    let last = w.close().unwrap();
    assert_eq!(last.len(), 1 + 16);
    assert_eq!(w.close().err().unwrap().kind, ErrorKind::Internal);
    assert_eq!(w.write(b"x").err().unwrap().kind, ErrorKind::Internal);
}

#[test]
fn writer_dropped_without_close_is_truncated() {
    let p = zero_key_primitive(32, 4096, 0);
    let (mut w, header) = p.new_encrypting_writer(b"").unwrap();
    let mut ct = header;
    ct.extend(w.write(&vec![0x41u8; 4096]).unwrap());
    drop(w);
    assert_eq!(ct.len(), 4096);
    assert_eq!(p.decrypt(&ct, b"").err().unwrap().kind, ErrorKind::InvalidCiphertext);
}

#[test]
fn writer_of_nothing_is_one_empty_segment() {
    let p = zero_key_primitive(16, 4096, 0);
    let (mut w, header) = p.new_encrypting_writer(b"").unwrap();
    let mut ct = header;
    ct.extend(w.close().unwrap());
    assert_eq!(ct.len(), 24 + 16);
    assert!(p.decrypt(&ct, b"").unwrap().is_empty());
}

fn read_in_pieces(p: &AesGcmHkdf, ct: &[u8], aad: &[u8], chunk: usize) -> Result<Vec<u8>, ErrorKind> {
    let hl = p.header_length();
    if ct.len() < hl {
        return Err(ErrorKind::InvalidCiphertext);
    }
    let mut r = p.new_decrypting_reader(&ct[..hl], aad).map_err(|e| e.kind)?;
    let mut out = Vec::new();
    for piece in ct[hl..].chunks(chunk) {
        out.extend(r.feed(piece).map_err(|e| e.kind)?);
    }
    out.extend(r.finish().map_err(|e| e.kind)?);
    Ok(out)
}

#[test]
fn reader_pieces_reproduce_the_plaintext() {
    let p = zero_key_primitive(32, 100, 7);
    let pt: Vec<u8> = (0..1000u32).map(|i| (i % 251) as u8).collect();
    let ct = p.encrypt(b"ad", &pt).unwrap();
    for chunk in [1usize, 3, 60, 100, 1000, 5000] {
        assert_eq!(read_in_pieces(&p, &ct, b"ad", chunk).unwrap(), pt);
    }
}

#[test]
fn reader_rejects_bad_header_tampering_and_truncation() {
    let p = zero_key_primitive(16, 64, 0);
    let pt = vec![9u8; 200];
    let ct = p.encrypt(b"", &pt).unwrap();
    let mut bad_header = ct.clone();
    bad_header[0] = 16 + 7;
    assert_eq!(read_in_pieces(&p, &bad_header, b"", 10), Err(ErrorKind::InvalidCiphertext));
    let mut tampered = ct.clone();
    tampered[30] ^= 0x80;
    assert_eq!(read_in_pieces(&p, &tampered, b"", 10), Err(ErrorKind::InvalidCiphertext));
    assert_eq!(read_in_pieces(&p, &ct[..ct.len() - 5], b"", 10), Err(ErrorKind::InvalidCiphertext));
    // header 24 + first segment 40 + one more full segment 64
    assert_eq!(read_in_pieces(&p, &ct[..128], b"", 10), Err(ErrorKind::InvalidCiphertext));
    assert_eq!(read_in_pieces(&p, &ct, b"other", 10), Err(ErrorKind::InvalidCiphertext));
}

#[test]
fn reader_is_done_after_finish_or_failure() {
    let p = zero_key_primitive(16, 64, 0);
    let ct = p.encrypt(b"", b"abc").unwrap();
    let mut r = p.new_decrypting_reader(&ct[..24], b"").unwrap();
    assert!(r.feed(&ct[24..]).unwrap().is_empty());
    assert_eq!(r.finish().unwrap(), b"abc".to_vec());
    assert_eq!(r.feed(b"more").err().unwrap().kind, ErrorKind::Internal);
    assert_eq!(r.finish().err().unwrap().kind, ErrorKind::Internal);
    assert_eq!(p.new_decrypting_reader(&ct[..23], b"").err().unwrap().kind, ErrorKind::InvalidCiphertext);
}
