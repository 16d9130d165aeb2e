use nvage::crypto::{
    decrypt, encrypt, generate_key, is_low_order_recipient_key, load_secret_key, parse_secret_key,
    public_key, CryptoError,
};

#[test]
fn test_encrypt_decrypt_roundtrip() {
    let (public_key, secret_str) = generate_key().unwrap();
    let identity = parse_secret_key(&secret_str).unwrap();

    let plaintext = b"hello, this is a secret note";
    let encrypted = encrypt(&public_key, plaintext).unwrap();

    assert_ne!(encrypted, plaintext);

    let header = String::from_utf8_lossy(&encrypted);
    assert!(header.starts_with("age-encryption.org"));

    let decrypted = decrypt(&identity, &encrypted).unwrap();
    assert_eq!(decrypted, plaintext);
}

#[test]
fn test_wrong_key_fails() {
    let (_, secret_str_a) = generate_key().unwrap();
    let (_, secret_str_b) = generate_key().unwrap();

    let identity_a = parse_secret_key(&secret_str_a).unwrap();
    let identity_b = parse_secret_key(&secret_str_b).unwrap();

    let public_a = public_key(&identity_a);
    let plaintext = b"secret data";
    let encrypted = encrypt(&public_a, plaintext).unwrap();

    let result = decrypt(&identity_b, &encrypted);
    assert!(result.is_err());
}

#[test]
fn generated_public_key_matches_secret_key() {
    let (public, secret) = generate_key().unwrap();
    let identity = parse_secret_key(&secret).unwrap();
    assert_eq!(public_key(&identity), public);
    assert!(public.starts_with("age1"));
    assert!(secret.starts_with("AGE-SECRET-KEY-1"));
}

#[test]
fn invalid_secret_key_is_rejected_with_reason() {
    match parse_secret_key("not a key") {
        Err(CryptoError::InvalidSecretKey(reason)) => {
            assert!(!reason.is_empty());
            let e = CryptoError::InvalidSecretKey(reason.clone());
            assert_eq!(e.message(), format!("Failed to parse identity key: {}", reason));
        }
        _ => panic!("expected an invalid secret key"),
    }
}

#[test]
fn invalid_public_key_is_rejected() {
    match encrypt("age1notakey", b"x") {
        Err(CryptoError::InvalidPublicKey(reason)) => {
            let e = CryptoError::InvalidPublicKey(reason.clone());
            assert_eq!(e.message(), format!("Invalid public key: {}", reason));
        }
        _ => panic!("expected an invalid public key"),
    }
}

#[test]
fn key_file_content_is_trimmed() {
    let (public, secret) = generate_key().unwrap();
    let content = format!("  {}\n\n", secret);
    let identity = load_secret_key(&content).unwrap();
    assert_eq!(public_key(&identity), public);
    assert!(load_secret_key("   ").is_err());
}

#[test]
fn garbage_ciphertext_fails_to_decrypt() {
    let (_, secret) = generate_key().unwrap();
    let identity = parse_secret_key(&secret).unwrap();
    match decrypt(&identity, b"definitely not age") {
        Err(CryptoError::Decryption(_)) => {}
        _ => panic!("expected a decryption error"),
    }
}

#[test]
fn other_age_versions_fail_to_decrypt() {
    let (_, secret) = generate_key().unwrap();
    let identity = parse_secret_key(&secret).unwrap();
    match decrypt(&identity, b"age-encryption.org/v2\nsomething\n") {
        Err(CryptoError::Decryption(_)) => {}
        _ => panic!("expected a decryption error"),
    }
}

#[test]
fn keys_have_their_prefixes_and_small_order_keys_are_known() {
    let (public, secret) = generate_key().unwrap();
    assert!(public.starts_with("age1"));
    assert!(secret.starts_with("AGE-SECRET-KEY-1"));
    assert!(!is_low_order_recipient_key(&public));
    // The all-zero point, in both cases.
    let zero = "age1qqqqqqqqqqqqqqqqqqqqqqqqqqqqqqqqqqqqqqqqqqqqqqqqqqqq5cu47z";
    assert!(is_low_order_recipient_key(zero));
    assert!(is_low_order_recipient_key(&zero.to_uppercase()));
    assert!(zero.parse::<age::x25519::Recipient>().is_ok());
}

#[test]
fn every_small_order_key_parses_and_is_known() {
    let keys = [
        "age1qqqqqqqqqqqqqqqqqqqqqqqqqqqqqqqqqqqqqqqqqqqqqqqqqqqq5cu47z",
        "age1qqqqqqqqqqqqqqqqqqqqqqqqqqqqqqqqqqqqqqqqqqqqqqqqqzqqsuwj9m",
        "age1qyqqqqqqqqqqqqqqqqqqqqqqqqqqqqqqqqqqqqqqqqqqqqqqqqqqj7vrya",
        "age1qyqqqqqqqqqqqqqqqqqqqqqqqqqqqqqqqqqqqqqqqqqqqqqqqzqqk67yly",
        "age1anlllllllllllllllllllllllllllllllllllllllllllllllals4n2t7m",
        "age1anllllllllllllllllllllllllllllllllllllllllllllllllls3hcv9z",
        "age1ur4h5lpmgxu2u9jku0a0r87ydtdqnr0tnsetrlvxvgz3vh6fhqqqzyt4v9",
        "age1ur4h5lpmgxu2u9jku0a0r87ydtdqnr0tnsetrlvxvgz3vh6fhzqqxqejhu",
        "age1t7wft09r2zxzfvwsk92eeql0tvzyghxytqwgapkcyf8dm5ylz9ts6wm9s8",
        "age1t7wft09r2zxzfvwsk92eeql0tvzyghxytqwgapkcyf8dm5ylz8ts72fzt7",
        "age1ahlllllllllllllllllllllllllllllllllllllllllllllllalsn46ayy",
        "age1ahlllllllllllllllllllllllllllllllllllllllllllllllllsh3g6la",
        "age1amlllllllllllllllllllllllllllllllllllllllllllllllalselrwrv",
        "age1amlllllllllllllllllllllllllllllllllllllllllllllllllsam3fc4",
        "AGE1QQQQQQQQQQQQQQQQQQQQQQQQQQQQQQQQQQQQQQQQQQQQQQQQQQQQ5CU47Z",
        "AGE1QQQQQQQQQQQQQQQQQQQQQQQQQQQQQQQQQQQQQQQQQQQQQQQQQZQQSUWJ9M",
        "AGE1QYQQQQQQQQQQQQQQQQQQQQQQQQQQQQQQQQQQQQQQQQQQQQQQQQQQJ7VRYA",
        "AGE1QYQQQQQQQQQQQQQQQQQQQQQQQQQQQQQQQQQQQQQQQQQQQQQQQZQQK67YLY",
        "AGE1ANLLLLLLLLLLLLLLLLLLLLLLLLLLLLLLLLLLLLLLLLLLLLLLLALS4N2T7M",
        "AGE1ANLLLLLLLLLLLLLLLLLLLLLLLLLLLLLLLLLLLLLLLLLLLLLLLLLS3HCV9Z",
        "AGE1UR4H5LPMGXU2U9JKU0A0R87YDTDQNR0TNSETRLVXVGZ3VH6FHQQQZYT4V9",
        "AGE1UR4H5LPMGXU2U9JKU0A0R87YDTDQNR0TNSETRLVXVGZ3VH6FHZQQXQEJHU",
        "AGE1T7WFT09R2ZXZFVWSK92EEQL0TVZYGHXYTQWGAPKCYF8DM5YLZ9TS6WM9S8",
        "AGE1T7WFT09R2ZXZFVWSK92EEQL0TVZYGHXYTQWGAPKCYF8DM5YLZ8TS72FZT7",
        "AGE1AHLLLLLLLLLLLLLLLLLLLLLLLLLLLLLLLLLLLLLLLLLLLLLLLALSN46AYY",
        "AGE1AHLLLLLLLLLLLLLLLLLLLLLLLLLLLLLLLLLLLLLLLLLLLLLLLLLSH3G6LA",
        "AGE1AMLLLLLLLLLLLLLLLLLLLLLLLLLLLLLLLLLLLLLLLLLLLLLLLALSELRWRV",
        "AGE1AMLLLLLLLLLLLLLLLLLLLLLLLLLLLLLLLLLLLLLLLLLLLLLLLLLSAM3FC4",
    ];
    for k in keys {
        assert!(k.parse::<age::x25519::Recipient>().is_ok(), "{}", k);
        assert!(is_low_order_recipient_key(k));
    }
    // The same zero key with its checksum broken is not a key.
    assert!("age1qqqqqqqqqqqqqqqqqqqqqqqqqqqqqqqqqqqqqqqqqqqqqqqqqqqq5cu47q"
        .parse::<age::x25519::Recipient>()
        .is_err());
}
