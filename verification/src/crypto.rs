//! The calls into sodiumoxide, base64 and bcrypt, and the clock. Each item
//! here is trusted: its contract is what the called crate's source and
//! documentation show, and nothing more.

use vstd::prelude::*;
use sodiumoxide::crypto::hash::sha256;
use sodiumoxide::crypto::sign;

verus! {

/// The SHA-256 digest that `sodiumoxide::crypto::hash::sha256::hash` computes.
pub uninterp spec fn sha256_of(data: Seq<u8>) -> Seq<u8>;

/// The result of `sodiumoxide::crypto::sign::verify` (`crypto_sign_ed25519_open`)
/// on a signed message (signature followed by message) and a public key:
/// the message when the signature is valid.
pub uninterp spec fn ed25519_open(signed: Seq<u8>, public_key: Seq<u8>) -> Option<Seq<u8>>;

/// The signed message (signature followed by message) that
/// `sodiumoxide::crypto::sign::sign` produces; ed25519 signing is deterministic.
pub uninterp spec fn ed25519_signed(message: Seq<u8>, secret_key: Seq<u8>) -> Seq<u8>;

/// The text that `base64::encode` (standard alphabet, padded) gives for the bytes.
pub uninterp spec fn base64_text(bytes: Seq<u8>) -> Seq<char>;

/// The bytes that `base64::decode` gives for the text, or `None` where it
/// returns an error.
pub uninterp spec fn base64_bytes(text: Seq<char>) -> Option<Seq<u8>>;

/// What `bcrypt::verify` returns for a password and a stored hash: `Some`
/// verdict, or `None` where it returns an error (a malformed hash).
pub uninterp spec fn bcrypt_verdict(password: Seq<char>, hash: Seq<char>) -> Option<bool>;

/// A character that can stand in a hash that `bcrypt::hash` formats: `$`,
/// the decimal digits of the cost, and bcrypt's base64 alphabet `./A-Za-z0-9`.
pub open spec fn is_bcrypt_hash_char(c: char) -> bool {
    c == '$' || c == '.' || c == '/' || ('0' <= c <= '9') || ('A' <= c <= 'Z') || ('a' <= c
        <= 'z')
}

/// `sodiumoxide::crypto::hash::sha256::hash`: the 32-byte digest, a function
/// of the input alone.
#[verifier::external_body]
pub(crate) fn sha256(data: &[u8]) -> (digest: [u8; 32])
    ensures
        digest@ == sha256_of(data@),
{
    sha256::hash(data).0
}

/// `sodiumoxide::crypto::sign::PublicKey::from_slice`: a key exactly when the
/// slice holds 32 bytes, and then those bytes.
#[verifier::external_body]
pub(crate) fn public_key_from_slice(bytes: &[u8]) -> (key: Option<[u8; 32]>)
    ensures
        key is Some <==> bytes@.len() == 32,
        key matches Some(k) ==> k@ == bytes@,
{
    sign::PublicKey::from_slice(bytes).map(|k| k.0)
}

/// `sodiumoxide::crypto::sign::SecretKey::from_slice`: a key exactly when the
/// slice holds 64 bytes, and then those bytes.
#[verifier::external_body]
pub(crate) fn secret_key_from_slice(bytes: &[u8]) -> (key: Option<[u8; 64]>)
    ensures
        key is Some <==> bytes@.len() == 64,
        key matches Some(k) ==> k@ == bytes@,
{
    sign::SecretKey::from_slice(bytes).map(|k| k.0)
}

/// `sodiumoxide::crypto::sign::verify`: the opened message, or `None` where
/// the signature does not verify; a function of its two arguments.
#[verifier::external_body]
pub(crate) fn ed25519_verify(signed: &[u8], public_key: &[u8; 32]) -> (opened: Option<Vec<u8>>)
    ensures
        match opened {
            Some(m) => ed25519_open(signed@, public_key@) == Some(m@),
            None => ed25519_open(signed@, public_key@) is None,
        },
{
    sign::verify(signed, &sign::PublicKey(*public_key)).ok()
}

/// `sodiumoxide::crypto::sign::sign`: the signed message, a function of the
/// message and the secret key: the 64-byte signature followed by the
/// message (libsodium's `crypto_sign` layout).
#[verifier::external_body]
pub(crate) fn ed25519_sign(message: &[u8], secret_key: &[u8; 64]) -> (signed: Vec<u8>)
    ensures
        signed@ == ed25519_signed(message@, secret_key@),
        signed@.len() == message@.len() + 64,
        signed@.subrange(64, signed@.len() as int) == message@,
{
    sign::sign(message, &sign::SecretKey(*secret_key))
}

/// `sodiumoxide::crypto::sign::gen_keypair`: a random secret key and the
/// corresponding public key. libsodium's secret key ends with the public key
/// (the crate's `SecretKey::public_key` reads it from there), and a message
/// signed with the secret key opens with the public key to that message.
/// Nothing else is stated of the random outcome.
#[verifier::external_body]
pub(crate) fn ed25519_keypair() -> (keys: ([u8; 32], [u8; 64]))
    ensures
        keys.1@.subrange(32, 64) == keys.0@,
        forall|m: Seq<u8>| #[trigger] ed25519_open(ed25519_signed(m, keys.1@), keys.0@) == Some(m),
{
    let (pk, sk) = sign::gen_keypair();
    (pk.0, sk.0)
}

/// `sodiumoxide::randombytes::randombytes`: `size` random bytes; only their
/// number is stated.
#[verifier::external_body]
pub(crate) fn random_bytes(size: usize) -> (bytes: Vec<u8>)
    ensures
        bytes@.len() == size,
{
    sodiumoxide::randombytes::randombytes(size)
}

/// `base64::encode`: the standard padded encoding, which `base64::decode`
/// turns back into the same bytes.
#[verifier::external_body]
pub(crate) fn base64_encode(bytes: &[u8]) -> (text: String)
    ensures
        text@ == base64_text(bytes@),
        base64_bytes(text@) == Some(bytes@),
{
    base64::encode(bytes)
}

/// `base64::decode`: the decoded bytes, or `None` where it returns an error.
#[verifier::external_body]
pub(crate) fn base64_decode(text: &str) -> (bytes: Option<Vec<u8>>)
    ensures
        match bytes {
            Some(b) => base64_bytes(text@) == Some(b@),
            None => base64_bytes(text@) is None,
        },
{
    base64::decode(text).ok()
}

/// `bcrypt::verify`: `None` where it returns an error, else its verdict.
#[verifier::external_body]
pub(crate) fn bcrypt_verify(password: &str, hash: &str) -> (verdict: Option<bool>)
    ensures
        verdict == bcrypt_verdict(password@, hash@),
{
    bcrypt::verify(password, hash).ok()
}

/// `bcrypt::hash` at `bcrypt::DEFAULT_COST`, with a random salt. Where it
/// succeeds, the hash is formatted as `$2b$12$` followed by 53 characters of
/// bcrypt's base64 alphabet (60 in all), and `bcrypt::verify` accepts the same
/// password against it. `None` where it fails (the salt could not be drawn).
#[verifier::external_body]
pub(crate) fn bcrypt_hash(password: &str) -> (hash: Option<String>)
    ensures
        hash matches Some(h) ==> {
            &&& bcrypt_verdict(password@, h@) == Some(true)
            &&& h@.len() == 60
            &&& forall|i: int| 0 <= i < h@.len() ==> is_bcrypt_hash_char(#[trigger] h@[i])
        },
{
    bcrypt::hash(password, bcrypt::DEFAULT_COST).ok()
}

/// The current Unix time in whole seconds (`SystemTime::elapsed` of
/// `UNIX_EPOCH`; 0 where the clock is set before it). Nothing is stated of
/// it: it depends on the clock.
#[verifier::external_body]
pub(crate) fn now_secs() -> (secs: u64) {
    std::time::UNIX_EPOCH.elapsed().map(|d| d.as_secs()).unwrap_or_default()
}

} // verus!
