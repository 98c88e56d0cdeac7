use crypto_key::encoding::decimal_text;
use crypto_key::signing::{calculate_digest, digest_hex, sort_signature_names};
use crypto_key::symmetric::{
    load_secret_key, secret_key_display, secret_key_text, symmetric_decrypt, symmetric_encrypt,
    symmetric_encrypt_with_nonce, SecretKey,
};

#[test]
fn decimal_numbers() {
    assert_eq!(decimal_text(0), "0");
    assert_eq!(decimal_text(7), "7");
    assert_eq!(decimal_text(10), "10");
    assert_eq!(decimal_text(1234567), "1234567");
}

#[test]
fn digest_of_abc() {
    assert_eq!(digest_hex(b"abc"), "ba7816bf8f01cfea414140de5dae2223b00361a396177a9cb410ff61f20015ad");
    assert_eq!(calculate_digest(b"abc").len(), 32);
    assert_eq!(calculate_digest(b"abc")[0], 0xba);
}

#[test]
fn digest_of_empty_file() {
    assert_eq!(digest_hex(b""), "e3b0c44298fc1c149afbf4c8996fb92427ae41e4649b934ca495991b7852b855");
}

#[test]
fn secret_key_text_is_base64() {
    let key = SecretKey::from_bytes([0u8; 32]);
    assert_eq!(secret_key_text(&key), "AAAAAAAAAAAAAAAAAAAAAAAAAAAAAAAAAAAAAAAAAAA=");
    let mut bytes = [0u8; 32];
    bytes[0] = 0xfb;
    bytes[31] = 0xff;
    let t = secret_key_text(&SecretKey::from_bytes(bytes));
    assert!(t.starts_with("+w"));
    assert!(t.ends_with("AP8="));
    assert_eq!(t.len(), 44);
}

#[test]
fn secret_key_round_trip() {
    let mut bytes = [0u8; 32];
    for i in 0..32 {
        bytes[i] = (i as u8) * 7 + 1;
    }
    let key = SecretKey::from_bytes(bytes);
    let text = format!("  {}\n", secret_key_text(&key));
    let back = load_secret_key(&text).unwrap();
    assert_eq!(back.to_bytes(), bytes);
}

#[test]
fn secret_key_not_base64() {
    let e = load_secret_key("***").err().unwrap();
    assert_eq!(e, "Error decoding secret key from Base64 format");
}

#[test]
fn secret_key_wrong_length() {
    let e = load_secret_key("AAAA").err().unwrap();
    assert_eq!(e, "Secret key must be 32 bytes long (256 bits). Found 3 bytes after Base64 decoding.");
}

#[test]
fn secret_key_shown_trimmed() {
    assert_eq!(secret_key_display("  abc= \n"), "abc=");
}

#[test]
fn aes_gcm_known_answer() {
    let key = SecretKey::from_bytes([0u8; 32]);
    let out = symmetric_encrypt_with_nonce(&key, &[0u8; 12], b"").unwrap();
    let tag: Vec<u8> = vec![
        0x53, 0x0f, 0x8a, 0xfb, 0xc7, 0x45, 0x36, 0xb9, 0xa9, 0x63, 0xb4, 0xf1, 0xc4, 0xcb, 0x73, 0x8b,
    ];
    assert_eq!(out.len(), 28);
    assert_eq!(&out[..12], &[0u8; 12]);
    assert_eq!(&out[12..], tag.as_slice());
}

#[test]
fn symmetric_round_trip() {
    let key = SecretKey::from_bytes([9u8; 32]);
    let data = b"file contents to protect".to_vec();
    let out = symmetric_encrypt(&key, &data).unwrap();
    assert_eq!(out.len(), data.len() + 28);
    assert_eq!(symmetric_decrypt(&key, &out).unwrap(), data);
}

#[test]
fn symmetric_short_data() {
    let key = SecretKey::from_bytes([1u8; 32]);
    let e = symmetric_decrypt(&key, &[1, 2, 3, 4, 5]).err().unwrap();
    assert_eq!(e, "EVENT: Decrypt Failed; Reason: Corrupt/Short File; File Size: 5");
}

#[test]
fn symmetric_tampered_data() {
    let key = SecretKey::from_bytes([1u8; 32]);
    let mut out = symmetric_encrypt(&key, b"hello").unwrap();
    out[14] ^= 1;
    let e = symmetric_decrypt(&key, &out).err().unwrap();
    assert_eq!(e, "EVENT: Decrypt Failed; Reason: Authentication Tag or Key Mismatch");
}

#[test]
fn symmetric_wrong_key() {
    let out = symmetric_encrypt(&SecretKey::from_bytes([1u8; 32]), b"hello").unwrap();
    let e = symmetric_decrypt(&SecretKey::from_bytes([2u8; 32]), &out).err().unwrap();
    assert_eq!(e, "EVENT: Decrypt Failed; Reason: Authentication Tag or Key Mismatch");
}

#[test]
fn signature_names_sorted() {
    let names = vec!["b.txt".to_string(), "a.txt".to_string(), "digital_signature.txt".to_string(), "a".to_string()];
    let sorted = sort_signature_names(names);
    assert_eq!(sorted, vec!["a".to_string(), "a.txt".to_string(), "b.txt".to_string(), "digital_signature.txt".to_string()]);
}

#[test]
fn symmetric_data_shorter_than_tag() {
    let key = SecretKey::from_bytes([1u8; 32]);
    let e = symmetric_decrypt(&key, &[0u8; 27]).err().unwrap();
    assert_eq!(e, "EVENT: Decrypt Failed; Reason: Authentication Tag or Key Mismatch");
}
