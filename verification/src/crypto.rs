//! `age` encryption of notes for sync: X25519 key pairs, encryption to a
//! public key and decryption with the matching secret key. Keys are held as
//! their texts, which the `age` key parsers accept.
use vstd::prelude::*;
use vstd::utf8::encode_utf8;
use age::secrecy::ExposeSecret;
use crate::text::{chars_of, contains_text, no_white_space, starts_with, string_of, trim, trim_bounds};

verus! {

/// Why `Identity::from_str` rejects a text (`None` when it accepts it).
pub uninterp spec fn identity_parse_error(text: Seq<char>) -> Option<Seq<char>>;

/// Why `Recipient::from_str` rejects a text (`None` when it accepts it).
pub uninterp spec fn recipient_parse_error(text: Seq<char>) -> Option<Seq<char>>;

/// The text of the public key of the secret key written `sk`
/// (`Identity::from_str(sk)?.to_public().to_string()`).
pub uninterp spec fn public_of_secret(sk: Seq<char>) -> Seq<char>;

/// What `age::decrypt` gives for the secret key written `sk` and a
/// ciphertext: the plaintext, or `None` when it fails. (The text of its
/// error is not named: age translates it through a language loader that can
/// be switched at run time.)
pub uninterp spec fn age_decrypt(sk: Seq<char>, ciphertext: Seq<u8>) -> Option<Seq<u8>>;

/// The texts of the X25519 public keys of small order: the 32-byte values
/// whose field element (the top bit ignored, reduced modulo 2^255 - 19) is
/// 0, 1, p - 1 or one of the two points of order 8, including the encodings
/// p and p + 1, each with the top bit clear or set, in bech32 with the `age`
/// prefix, in lower and in upper case (the two cases `Recipient::from_str`
/// accepts). Every clamped scalar times such a point is zero, so the
/// Diffie-Hellman secret with it is all zeros, and age's `wrap_file_key`
/// panics on it; for any other point of the curve or its twist no clamped
/// scalar gives zero.
pub open spec fn low_order_recipient_texts() -> Seq<Seq<char>> {
    seq![
        "age1qqqqqqqqqqqqqqqqqqqqqqqqqqqqqqqqqqqqqqqqqqqqqqqqqqqq5cu47z"@,
        "age1qqqqqqqqqqqqqqqqqqqqqqqqqqqqqqqqqqqqqqqqqqqqqqqqqzqqsuwj9m"@,
        "age1qyqqqqqqqqqqqqqqqqqqqqqqqqqqqqqqqqqqqqqqqqqqqqqqqqqqj7vrya"@,
        "age1qyqqqqqqqqqqqqqqqqqqqqqqqqqqqqqqqqqqqqqqqqqqqqqqqzqqk67yly"@,
        "age1anlllllllllllllllllllllllllllllllllllllllllllllllals4n2t7m"@,
        "age1anllllllllllllllllllllllllllllllllllllllllllllllllls3hcv9z"@,
        "age1ur4h5lpmgxu2u9jku0a0r87ydtdqnr0tnsetrlvxvgz3vh6fhqqqzyt4v9"@,
        "age1ur4h5lpmgxu2u9jku0a0r87ydtdqnr0tnsetrlvxvgz3vh6fhzqqxqejhu"@,
        "age1t7wft09r2zxzfvwsk92eeql0tvzyghxytqwgapkcyf8dm5ylz9ts6wm9s8"@,
        "age1t7wft09r2zxzfvwsk92eeql0tvzyghxytqwgapkcyf8dm5ylz8ts72fzt7"@,
        "age1ahlllllllllllllllllllllllllllllllllllllllllllllllalsn46ayy"@,
        "age1ahlllllllllllllllllllllllllllllllllllllllllllllllllsh3g6la"@,
        "age1amlllllllllllllllllllllllllllllllllllllllllllllllalselrwrv"@,
        "age1amlllllllllllllllllllllllllllllllllllllllllllllllllsam3fc4"@,
        "AGE1QQQQQQQQQQQQQQQQQQQQQQQQQQQQQQQQQQQQQQQQQQQQQQQQQQQQ5CU47Z"@,
        "AGE1QQQQQQQQQQQQQQQQQQQQQQQQQQQQQQQQQQQQQQQQQQQQQQQQQZQQSUWJ9M"@,
        "AGE1QYQQQQQQQQQQQQQQQQQQQQQQQQQQQQQQQQQQQQQQQQQQQQQQQQQQJ7VRYA"@,
        "AGE1QYQQQQQQQQQQQQQQQQQQQQQQQQQQQQQQQQQQQQQQQQQQQQQQQZQQK67YLY"@,
        "AGE1ANLLLLLLLLLLLLLLLLLLLLLLLLLLLLLLLLLLLLLLLLLLLLLLLALS4N2T7M"@,
        "AGE1ANLLLLLLLLLLLLLLLLLLLLLLLLLLLLLLLLLLLLLLLLLLLLLLLLLS3HCV9Z"@,
        "AGE1UR4H5LPMGXU2U9JKU0A0R87YDTDQNR0TNSETRLVXVGZ3VH6FHQQQZYT4V9"@,
        "AGE1UR4H5LPMGXU2U9JKU0A0R87YDTDQNR0TNSETRLVXVGZ3VH6FHZQQXQEJHU"@,
        "AGE1T7WFT09R2ZXZFVWSK92EEQL0TVZYGHXYTQWGAPKCYF8DM5YLZ9TS6WM9S8"@,
        "AGE1T7WFT09R2ZXZFVWSK92EEQL0TVZYGHXYTQWGAPKCYF8DM5YLZ8TS72FZT7"@,
        "AGE1AHLLLLLLLLLLLLLLLLLLLLLLLLLLLLLLLLLLLLLLLLLLLLLLLALSN46AYY"@,
        "AGE1AHLLLLLLLLLLLLLLLLLLLLLLLLLLLLLLLLLLLLLLLLLLLLLLLLLSH3G6LA"@,
        "AGE1AMLLLLLLLLLLLLLLLLLLLLLLLLLLLLLLLLLLLLLLLLLLLLLLLALSELRWRV"@,
        "AGE1AMLLLLLLLLLLLLLLLLLLLLLLLLLLLLLLLLLLLLLLLLLLLLLLLLLSAM3FC4"@,
    ]
}

/// `pk` is the text of a public key of small order, which age cannot
/// encrypt to.
pub open spec fn is_low_order_recipient(pk: Seq<char>) -> bool {
    low_order_recipient_texts().contains(pk)
}

/// Whether `pk` is the text of a public key of small order.
pub fn is_low_order_recipient_key(pk: &str) -> (b: bool)
    ensures
        b == is_low_order_recipient(pk@),
{
    let keys = vec![
        String::from_str("age1qqqqqqqqqqqqqqqqqqqqqqqqqqqqqqqqqqqqqqqqqqqqqqqqqqqq5cu47z"),
        String::from_str("age1qqqqqqqqqqqqqqqqqqqqqqqqqqqqqqqqqqqqqqqqqqqqqqqqqzqqsuwj9m"),
        String::from_str("age1qyqqqqqqqqqqqqqqqqqqqqqqqqqqqqqqqqqqqqqqqqqqqqqqqqqqj7vrya"),
        String::from_str("age1qyqqqqqqqqqqqqqqqqqqqqqqqqqqqqqqqqqqqqqqqqqqqqqqqzqqk67yly"),
        String::from_str("age1anlllllllllllllllllllllllllllllllllllllllllllllllals4n2t7m"),
        String::from_str("age1anllllllllllllllllllllllllllllllllllllllllllllllllls3hcv9z"),
        String::from_str("age1ur4h5lpmgxu2u9jku0a0r87ydtdqnr0tnsetrlvxvgz3vh6fhqqqzyt4v9"),
        String::from_str("age1ur4h5lpmgxu2u9jku0a0r87ydtdqnr0tnsetrlvxvgz3vh6fhzqqxqejhu"),
        String::from_str("age1t7wft09r2zxzfvwsk92eeql0tvzyghxytqwgapkcyf8dm5ylz9ts6wm9s8"),
        String::from_str("age1t7wft09r2zxzfvwsk92eeql0tvzyghxytqwgapkcyf8dm5ylz8ts72fzt7"),
        String::from_str("age1ahlllllllllllllllllllllllllllllllllllllllllllllllalsn46ayy"),
        String::from_str("age1ahlllllllllllllllllllllllllllllllllllllllllllllllllsh3g6la"),
        String::from_str("age1amlllllllllllllllllllllllllllllllllllllllllllllllalselrwrv"),
        String::from_str("age1amlllllllllllllllllllllllllllllllllllllllllllllllllsam3fc4"),
        String::from_str("AGE1QQQQQQQQQQQQQQQQQQQQQQQQQQQQQQQQQQQQQQQQQQQQQQQQQQQQ5CU47Z"),
        String::from_str("AGE1QQQQQQQQQQQQQQQQQQQQQQQQQQQQQQQQQQQQQQQQQQQQQQQQQZQQSUWJ9M"),
        String::from_str("AGE1QYQQQQQQQQQQQQQQQQQQQQQQQQQQQQQQQQQQQQQQQQQQQQQQQQQQJ7VRYA"),
        String::from_str("AGE1QYQQQQQQQQQQQQQQQQQQQQQQQQQQQQQQQQQQQQQQQQQQQQQQQZQQK67YLY"),
        String::from_str("AGE1ANLLLLLLLLLLLLLLLLLLLLLLLLLLLLLLLLLLLLLLLLLLLLLLLALS4N2T7M"),
        String::from_str("AGE1ANLLLLLLLLLLLLLLLLLLLLLLLLLLLLLLLLLLLLLLLLLLLLLLLLLS3HCV9Z"),
        String::from_str("AGE1UR4H5LPMGXU2U9JKU0A0R87YDTDQNR0TNSETRLVXVGZ3VH6FHQQQZYT4V9"),
        String::from_str("AGE1UR4H5LPMGXU2U9JKU0A0R87YDTDQNR0TNSETRLVXVGZ3VH6FHZQQXQEJHU"),
        String::from_str("AGE1T7WFT09R2ZXZFVWSK92EEQL0TVZYGHXYTQWGAPKCYF8DM5YLZ9TS6WM9S8"),
        String::from_str("AGE1T7WFT09R2ZXZFVWSK92EEQL0TVZYGHXYTQWGAPKCYF8DM5YLZ8TS72FZT7"),
        String::from_str("AGE1AHLLLLLLLLLLLLLLLLLLLLLLLLLLLLLLLLLLLLLLLLLLLLLLLALSN46AYY"),
        String::from_str("AGE1AHLLLLLLLLLLLLLLLLLLLLLLLLLLLLLLLLLLLLLLLLLLLLLLLLLSH3G6LA"),
        String::from_str("AGE1AMLLLLLLLLLLLLLLLLLLLLLLLLLLLLLLLLLLLLLLLLLLLLLLLALSELRWRV"),
        String::from_str("AGE1AMLLLLLLLLLLLLLLLLLLLLLLLLLLLLLLLLLLLLLLLLLLLLLLLLLSAM3FC4"),
    ];
    assert(crate::text::texts(keys@) =~= low_order_recipient_texts());
    let text = String::from_str(pk);
    contains_text(&keys, &text)
}

/// The first line of a binary age file: `age-encryption.org/v1` and a
/// newline.
pub open spec fn age_v1_header_line() -> Seq<u8> {
    encode_utf8("age-encryption.org/v1\n"@)
}

/// `c` opens with the first line of a binary age file.
pub open spec fn is_age_v1_file(c: Seq<u8>) -> bool {
    age_v1_header_line().len() <= c.len() && c.take(age_v1_header_line().len() as int)
        == age_v1_header_line()
}

/// `Identity::generate().to_string()` (exposed): the text of a fresh random
/// key. The text is bech32 in upper case (`AGE-SECRET-KEY-1…`), so it holds
/// no white space, and `Identity::from_str` accepts it again.
#[verifier::external_body]
fn generate_secret_text() -> (s: String)
    ensures
        identity_parse_error(s@) is None,
        no_white_space(s@),
        starts_with(s@, "AGE-SECRET-KEY-1"@),
{
    age::x25519::Identity::generate().to_string().expose_secret().to_string()
}

/// `Identity::from_str`: accepted or not, named by `identity_parse_error`,
/// with the reason given on failure.
#[verifier::external_body]
fn check_identity(s: &str) -> (r: Result<(), String>)
    ensures
        r is Ok <==> identity_parse_error(s@) is None,
        r matches Err(e) ==> identity_parse_error(s@) == Some(e@),
{
    match s.parse::<age::x25519::Identity>() {
        Ok(_) => Ok(()),
        Err(e) => Err(e.to_string()),
    }
}

/// `Identity::to_public().to_string()` of the key written `sk`: named by
/// `public_of_secret`; it is the lower-case bech32 text of a public key
/// (`age1…`), which `Recipient::from_str` accepts. The public key is the
/// base point times the clamped secret scalar, so it has the base point's
/// large prime order and is never of small order.
#[verifier::external_body]
fn public_text_of(sk: &str) -> (s: String)
    requires
        identity_parse_error(sk@) is None,
    ensures
        s@ == public_of_secret(sk@),
        recipient_parse_error(s@) is None,
        starts_with(s@, "age1"@),
        !is_low_order_recipient(s@),
{
    match sk.parse::<age::x25519::Identity>() {
        Ok(id) => id.to_public().to_string(),
        Err(e) => e.to_string(),
    }
}

/// `Recipient::from_str`: accepted or not, named by `recipient_parse_error`,
/// with the reason given on failure.
#[verifier::external_body]
fn check_recipient(s: &str) -> (r: Result<(), String>)
    ensures
        r is Ok <==> recipient_parse_error(s@) is None,
        r matches Err(e) ==> recipient_parse_error(s@) == Some(e@),
{
    match s.parse::<age::x25519::Recipient>() {
        Ok(_) => Ok(()),
        Err(e) => Err(e.to_string()),
    }
}

/// `age::encrypt` to the recipient written `pk`. For one X25519 recipient it
/// does not fail: the key is wrapped without error and the output is a
/// `Vec`. The output starts with the header, whose first line is
/// `age-encryption.org/v1`. The file key is fresh and random, so the
/// ciphertext itself is not named; what is claimed is that every secret key
/// whose public key is `pk` decrypts it to the plaintext. It panics when
/// the Diffie-Hellman secret is all zeros, which happens exactly for a
/// public key of small order (left out by `requires`), and otherwise only
/// if the system's random source fails.
#[verifier::external_body]
fn encrypt_to(pk: &str, plaintext: &[u8]) -> (r: Result<Vec<u8>, String>)
    requires
        recipient_parse_error(pk@) is None,
        !is_low_order_recipient(pk@),
    ensures
        r is Ok,
        r matches Ok(c) ==> is_age_v1_file(c@),
        r matches Ok(c) ==> forall|sk: Seq<char>|
            identity_parse_error(sk) is None && public_of_secret(sk) == pk@ ==> #[trigger] age_decrypt(
                sk,
                c@,
            ) == Some(plaintext@),
{
    match pk.parse::<age::x25519::Recipient>() {
        Ok(r) => age::encrypt(&r, plaintext).map_err(|e| e.to_string()),
        Err(e) => Err(e.to_string()),
    }
}

/// `age::decrypt` with the key written `sk`: named by `age_decrypt`, the
/// error's text excepted (it is localized). It
/// reads the header through `Header::read_buffered`, whose parser begins
/// with the tag `age-encryption.org/`, accepts version `v1` followed by a
/// newline and turns any other version into `DecryptError::UnknownFormat`;
/// so it succeeds only on text that opens with that line (the `armor`
/// feature is not enabled).
#[verifier::external_body]
fn decrypt_with(sk: &str, ciphertext: &[u8]) -> (r: Result<Vec<u8>, String>)
    requires
        identity_parse_error(sk@) is None,
    ensures
        match r {
            Ok(p) => age_decrypt(sk@, ciphertext@) == Some(p@),
            Err(_) => age_decrypt(sk@, ciphertext@) is None,
        },
        r is Ok ==> is_age_v1_file(ciphertext@),
{
    match sk.parse::<age::x25519::Identity>() {
        Ok(id) => age::decrypt(&id, ciphertext).map_err(|e| e.to_string()),
        Err(e) => Err(e.to_string()),
    }
}

/// An age X25519 secret key, held as its text.
pub struct SecretKey {
    text: String,
}

impl View for SecretKey {
    type V = Seq<char>;

    /// The key's text.
    closed spec fn view(&self) -> Seq<char> {
        self.text@
    }
}

impl SecretKey {
    /// The text is one `Identity::from_str` accepts.
    #[verifier::type_invariant]
    spec fn parses(&self) -> bool {
        identity_parse_error(self.text@) is None
    }
}

/// What can go wrong with keys and encryption.
#[derive(Debug, PartialEq, Eq)]
pub enum CryptoError {
    /// The secret key text was rejected, for the given reason.
    InvalidSecretKey(String),
    /// The public key text was rejected, for the given reason.
    InvalidPublicKey(String),
    /// Encryption failed.
    Encryption(String),
    /// Decryption failed (wrong key, damaged or foreign ciphertext).
    Decryption(String),
}

impl CryptoError {
    /// The error as a sentence.
    pub fn message(&self) -> (m: String)
        ensures
            m@ == self.message_text(),
    {
        match self {
            CryptoError::InvalidSecretKey(e) => {
                let mut m = String::from_str("Failed to parse identity key: ");
                m.append(e.as_str());
                m
            },
            CryptoError::InvalidPublicKey(e) => {
                let mut m = String::from_str("Invalid public key: ");
                m.append(e.as_str());
                m
            },
            CryptoError::Encryption(e) => e.clone(),
            CryptoError::Decryption(e) => e.clone(),
        }
    }

    /// The text of `message`.
    pub open spec fn message_text(&self) -> Seq<char> {
        match self {
            CryptoError::InvalidSecretKey(e) => "Failed to parse identity key: "@ + e@,
            CryptoError::InvalidPublicKey(e) => "Invalid public key: "@ + e@,
            CryptoError::Encryption(e) => e@,
            CryptoError::Decryption(e) => e@,
        }
    }
}

/// A new key pair, as `(public key, secret key)` texts (`age1…` and
/// `AGE-SECRET-KEY-1…`): the public key is the secret key's, both parse,
/// and the secret key's text has no white space (so a key file holding it
/// loads back as the same key).
pub fn generate_key() -> (r: Result<(String, String), CryptoError>)
    ensures
        r matches Ok(keys) && {
            &&& keys.0@ == public_of_secret(keys.1@)
            &&& recipient_parse_error(keys.0@) is None
            &&& identity_parse_error(keys.1@) is None
            &&& no_white_space(keys.1@)
            &&& starts_with(keys.0@, "age1"@)
            &&& starts_with(keys.1@, "AGE-SECRET-KEY-1"@)
            &&& !is_low_order_recipient(keys.0@)
        },
{
    let secret_str = generate_secret_text();
    let public_str = public_text_of(secret_str.as_str());
    Ok((public_str, secret_str))
}

/// A secret key from its text.
pub fn parse_secret_key(key_str: &str) -> (r: Result<SecretKey, CryptoError>)
    ensures
        r is Ok <==> identity_parse_error(key_str@) is None,
        r matches Ok(k) ==> k@ == key_str@,
        r is Err ==> (r matches Err(CryptoError::InvalidSecretKey(m)) && identity_parse_error(
            key_str@,
        ) == Some(m@)),
{
    match check_identity(key_str) {
        Ok(()) => Ok(SecretKey { text: key_str.to_owned() }),
        Err(reason) => Err(CryptoError::InvalidSecretKey(reason)),
    }
}

/// A secret key from the text of a key file: the key is the file's text
/// without surrounding white space.
pub fn load_secret_key(content: &str) -> (r: Result<SecretKey, CryptoError>)
    ensures
        r is Ok <==> identity_parse_error(trim(content@)) is None,
        r matches Ok(k) ==> k@ == trim(content@),
        r is Err ==> (r matches Err(CryptoError::InvalidSecretKey(m)) && identity_parse_error(
            trim(content@),
        ) == Some(m@)),
{
    let v = chars_of(content);
    let (lo, hi) = trim_bounds(&v);
    let key = string_of(&v, lo, hi);
    parse_secret_key(key.as_str())
}

/// The public key of a secret key, as text.
pub fn public_key(key: &SecretKey) -> (s: String)
    ensures
        identity_parse_error(key@) is None,
        s@ == public_of_secret(key@),
        recipient_parse_error(s@) is None,
        starts_with(s@, "age1"@),
        !is_low_order_recipient(s@),
{
    proof {
        use_type_invariant(key);
    }
    public_text_of(key.text.as_str())
}

/// Encrypts `plaintext` to the public key given as text. The key is
/// rejected exactly when `Recipient::from_str` rejects it; otherwise the
/// result is an age file that every secret key with this public key
/// decrypts to `plaintext`. A key of small order, on which age panics, is
/// not accepted.
pub fn encrypt(public_key: &str, plaintext: &[u8]) -> (r: Result<Vec<u8>, CryptoError>)
    requires
        !is_low_order_recipient(public_key@),
    ensures
        recipient_parse_error(public_key@) is Some <==> r is Err,
        r matches Err(e) ==> (e matches CryptoError::InvalidPublicKey(m) && recipient_parse_error(
            public_key@,
        ) == Some(m@)),
        r matches Ok(c) ==> is_age_v1_file(c@) && forall|sk: Seq<char>|
            identity_parse_error(sk) is None && public_of_secret(sk) == public_key@
                ==> #[trigger] age_decrypt(sk, c@) == Some(plaintext@),
{
    match check_recipient(public_key) {
        Ok(()) => {},
        Err(reason) => {
            return Err(CryptoError::InvalidPublicKey(reason));
        },
    }
    match encrypt_to(public_key, plaintext) {
        Ok(c) => Ok(c),
        Err(e) => Err(CryptoError::Encryption(e)),
    }
}

/// Decrypts age ciphertext with a secret key: the plaintext `age::decrypt`
/// gives, or a `Decryption` error with the text of age's error. Only a binary age file (one
/// that opens with `age-encryption.org/v1`) decrypts; text that `encrypt`
/// made for this key's public key decrypts to what was encrypted.
pub fn decrypt(key: &SecretKey, ciphertext: &[u8]) -> (r: Result<Vec<u8>, CryptoError>)
    ensures
        identity_parse_error(key@) is None,
        match age_decrypt(key@, ciphertext@) {
            Some(p) => r matches Ok(q) && q@ == p,
            None => r matches Err(CryptoError::Decryption(_)),
        },
        r is Ok ==> is_age_v1_file(ciphertext@),
{
    proof {
        use_type_invariant(key);
    }
    match decrypt_with(key.text.as_str(), ciphertext) {
        Ok(p) => Ok(p),
        Err(e) => Err(CryptoError::Decryption(e)),
    }
}

} // verus!
