use sowback::crypto::{magic_salt, sha256_with_salt, CryptoContext};

#[test]
fn test_crypto_roundtrip() {
    let token = "ciallo";
    let client_id = "0058454c-ba2f-40de-8390-c1bcfc65754f";

    let session_key = CryptoContext::derive_session_key(token, client_id).unwrap();
    let crypto = CryptoContext::new(&session_key).unwrap();

    let original_data = b"Hello, world!";
    let encrypted = crypto.encrypt(original_data).unwrap();
    let decrypted = crypto.decrypt(&encrypted).unwrap();

    assert_eq!(original_data, decrypted.as_slice());
}

#[test]
fn salted_hash_is_sha256_of_concatenation() {
    // SHA-256 of "abc", a published reference value
    let expected: Vec<u8> = vec![
        0xba, 0x78, 0x16, 0xbf, 0x8f, 0x01, 0xcf, 0xea, 0x41, 0x41, 0x40, 0xde, 0x5d, 0xae,
        0x22, 0x23, 0xb0, 0x03, 0x61, 0xa3, 0x96, 0x17, 0x7a, 0x9c, 0xb4, 0x10, 0xff, 0x61,
        0xf2, 0x00, 0x15, 0xad,
    ];
    assert_eq!(sha256_with_salt(b"a", b"bc"), expected);
    assert_eq!(sha256_with_salt(b"ab", b"c"), expected);
}

#[test]
fn salted_hash_deterministic_and_32_bytes() {
    let salt = magic_salt();
    let h1 = sha256_with_salt(b"secret token", &salt);
    let h2 = sha256_with_salt(b"secret token", &salt);
    assert_eq!(h1, h2);
    assert_eq!(h1.len(), 32);
    let other = sha256_with_salt(b"another token", &salt);
    assert_ne!(h1, other);
}

#[test]
fn magic_salt_is_the_fixed_sixteen_bytes() {
    assert_eq!(magic_salt(), b".Kita_Ikuyo.^_^.".to_vec());
}

#[test]
fn session_keys_deterministic_and_32_bytes() {
    let k1 = CryptoContext::derive_session_key("tok", "client-a").unwrap();
    let k2 = CryptoContext::derive_session_key("tok", "client-a").unwrap();
    assert_eq!(k1, k2);
    assert_eq!(k1.len(), 32);
    let k3 = CryptoContext::derive_session_key("tok", "client-b").unwrap();
    assert_ne!(k1, k3);
    let k4 = CryptoContext::derive_session_key("kot", "client-a").unwrap();
    assert_ne!(k1, k4);
}

#[test]
fn context_rejects_short_key() {
    assert!(CryptoContext::new(&[0u8; 16]).is_err());
    assert!(CryptoContext::new(&[0u8; 33]).is_err());
    assert!(CryptoContext::new(&[0u8; 32]).is_ok());
}

#[test]
fn decrypt_rejects_short_and_tampered_input() {
    let key = CryptoContext::derive_session_key("t", "c").unwrap();
    let crypto = CryptoContext::new(&key).unwrap();
    assert!(crypto.decrypt(&[0u8; 11]).is_err());
    let mut enc = crypto.encrypt(b"payload").unwrap();
    let last = enc.len() - 1;
    enc[last] ^= 0xff;
    assert!(crypto.decrypt(&enc).is_err());
}
