use gateway::error::GatewayError;
use gateway::security::{
    decrypt_credential, derive_hash, encrypt_credential, generate_gateway_key, hash_password,
    parse_gateway_key, verify_gateway_key, verify_password, KeyEnv, MasterKey,
};

#[test]
fn roundtrip() {
    let key = MasterKey([7u8; 32]);
    let blob = encrypt_credential(&key, "sk-test-secret").unwrap();
    assert_eq!(decrypt_credential(&key, &blob).unwrap(), "sk-test-secret");
}

#[test]
fn roundtrip_live_key() {
    let mk = MasterKey([7u8; 32]);
    let k = generate_gateway_key(KeyEnv::Live, &mk).unwrap();
    assert!(k.plaintext.starts_with("sk-gw-live-"));
    assert_eq!(parse_gateway_key(&k.plaintext), Some("sk-gw-live-"));
    assert!(verify_gateway_key(&k.plaintext, &mk, &k.hash));
    assert!(!verify_gateway_key("sk-gw-live-wrong", &mk, &k.hash));
    assert_eq!(derive_hash(&mk, &k.plaintext), k.hash);
}

#[test]
fn test_keys_have_test_prefix_and_last4() {
    let mk = MasterKey([1u8; 32]);
    let k = generate_gateway_key(KeyEnv::Test, &mk).unwrap();
    assert_eq!(k.prefix, "sk-gw-test-");
    assert_eq!(k.plaintext.len(), "sk-gw-test-".len() + 32);
    assert!(k.plaintext["sk-gw-test-".len()..].chars().all(|c| c.is_ascii_alphanumeric()));
    assert_eq!(k.last4, k.plaintext[k.plaintext.len() - 4..]);
}

#[test]
fn key_env_parse_and_prefix() {
    assert_eq!(KeyEnv::parse("live").map(|e| e.prefix()), Some("sk-gw-live-"));
    assert_eq!(KeyEnv::parse("test").map(|e| e.prefix()), Some("sk-gw-test-"));
    assert!(KeyEnv::parse("LIVE").is_none());
}

#[test]
fn foreign_prefixes_are_not_gateway_keys() {
    assert_eq!(parse_gateway_key("sk-live-abc"), None);
    assert_eq!(parse_gateway_key("sk-gw-test-x"), Some("sk-gw-test-"));
}

#[test]
fn hash_depends_on_master_key() {
    let a = derive_hash(&MasterKey([1u8; 32]), "sk-gw-live-abc");
    let b = derive_hash(&MasterKey([2u8; 32]), "sk-gw-live-abc");
    assert_eq!(a.len(), 32);
    assert_ne!(a, b);
    let expected = blake3::keyed_hash(&[1u8; 32], b"sk-gw-live-abc");
    assert_eq!(a, expected.as_bytes().to_vec());
}

#[test]
fn credential_ciphertext_is_not_plaintext() {
    let key = MasterKey([9u8; 32]);
    let blob = encrypt_credential(&key, "sk-plain").unwrap();
    assert_eq!(blob.len(), 12 + "sk-plain".len() + 16);
    assert!(!blob.windows(8).any(|w| w == b"sk-plain"));
}

#[test]
fn wrong_master_key_fails_to_decrypt() {
    let blob = encrypt_credential(&MasterKey([3u8; 32]), "secret").unwrap();
    match decrypt_credential(&MasterKey([4u8; 32]), &blob) {
        Err(GatewayError::Internal(m)) => assert_eq!(m, "aes decrypt: aead::Error"),
        _ => panic!("expected an error"),
    }
}

#[test]
fn short_blob_is_rejected() {
    match decrypt_credential(&MasterKey([3u8; 32]), &[1, 2, 3]) {
        Err(GatewayError::Internal(m)) => assert_eq!(m, "encrypted credential too short"),
        _ => panic!("expected an error"),
    }
}

#[test]
fn master_key_from_base64() {
    let text = " BwcHBwcHBwcHBwcHBwcHBwcHBwcHBwcHBwcHBwcHBwc= ";
    let k = MasterKey::from_base64(text).unwrap();
    assert_eq!(k.0, [7u8; 32]);
    match MasterKey::from_base64("AAAA") {
        Err(GatewayError::Internal(m)) => assert_eq!(m, "master key must decode to exactly 32 bytes (got 3)"),
        _ => panic!("expected an error"),
    }
    match MasterKey::from_base64("!!!") {
        Err(GatewayError::Internal(m)) => assert!(m.starts_with("master key base64 decode failed: ")),
        _ => panic!("expected an error"),
    }
}

#[test]
fn password_hash_verifies() {
    let phc = hash_password("hunter22").unwrap();
    assert!(phc.starts_with("$argon2"));
    assert_eq!(verify_password("hunter22", &phc).unwrap(), true);
    assert_eq!(verify_password("hunter23", &phc).unwrap(), false);
    assert!(verify_password("x", "not a phc string").is_err());
}
