//! What the administration utility computes: server key pairs and their
//! validation, the hash of a legacy admin token, and the settings that set up
//! the admin API in an `.env` file.

use vstd::prelude::*;
use crate::crypto::{
    base64_bytes, base64_decode, base64_encode, base64_text, bcrypt_hash, bcrypt_verdict,
    ed25519_keypair, ed25519_open, ed25519_sign, ed25519_signed, ed25519_verify, is_bcrypt_hash_char,
    public_key_from_slice, random_bytes, secret_key_from_slice,
};
use crate::env_file::{
    assignment, has_admin_token_hash, merge_env_var, sets_token_hash, with_env_var, JWT_SECRET_KEY,
    TOKEN_HASH_KEY,
};
use crate::hex::{lower_hex, push_char, to_hex};
use crate::text::{chars_vec, push_chars};

verus! {

/// Number of random bytes behind a generated admin token and JWT secret
/// (each is written as twice as many hex digits).
pub const SECRET_BYTES: usize = 32;

/// Generates a server signing key pair and returns its public and secret
/// keys in base64. The secret key ends with the public key, and the pair
/// passes `validate_keypair`.
pub fn generate_keypair_b64() -> (keys: (String, String))
    ensures
        exists|pk: Seq<u8>, sk: Seq<u8>|
            #![trigger base64_text(pk), base64_text(sk)]
            pk.len() == 32 && sk.len() == 64 && sk.subrange(32, 64) == pk && keys.0@ == base64_text(pk)
                && keys.1@ == base64_text(sk),
        keypair_verdict(keys.0@, keys.1@) == Ok::<(), KeypairError>(()),
{
    let (pk, sk) = ed25519_keypair();
    proof {
        vstd::array::array_len_matches_n(&pk);
        vstd::array::array_len_matches_n(&sk);
    }
    let pk_b64 = base64_encode(pk.as_slice());
    let sk_b64 = base64_encode(sk.as_slice());
    (pk_b64, sk_b64)
}

/// Why a key pair is not valid.
#[derive(Debug, PartialEq, Eq, Structural)]
pub enum KeypairError {
    /// The secret key is not base64.
    SecretKeyEncoding,
    /// The secret key does not hold 64 bytes.
    SecretKeyLength,
    /// The public key is not base64.
    PublicKeyEncoding,
    /// The public key does not hold 32 bytes.
    PublicKeyLength,
    /// A message signed with the secret key does not verify with the public
    /// key.
    Mismatch,
}

/// The description of each key pair error.
pub open spec fn keypair_error_text(e: KeypairError) -> Seq<char> {
    match e {
        KeypairError::SecretKeyEncoding => "Invalid secret key"@,
        KeypairError::SecretKeyLength => "Invalid Secret key"@,
        KeypairError::PublicKeyEncoding => "Invalid public key"@,
        KeypairError::PublicKeyLength => "Invalid Public key"@,
        KeypairError::Mismatch => "Key pair is INVALID"@,
    }
}

impl KeypairError {
    /// The text that describes the error.
    pub fn message(&self) -> (m: &'static str)
        ensures
            m@ == keypair_error_text(*self),
    {
        match self {
            KeypairError::SecretKeyEncoding => "Invalid secret key",
            KeypairError::SecretKeyLength => "Invalid Secret key",
            KeypairError::PublicKeyEncoding => "Invalid public key",
            KeypairError::PublicKeyLength => "Invalid Public key",
            KeypairError::Mismatch => "Key pair is INVALID",
        }
    }
}

/// The bytes of the text `This is meh.`, which a key pair must sign and
/// verify.
pub open spec fn probe_message() -> Seq<u8> {
    seq![84u8, 104, 105, 115, 32, 105, 115, 32, 109, 101, 104, 46]
}

/// The verdict on a key pair given in base64: each key must decode and have
/// its length, checked in this order, and the probe message signed with the
/// secret key must open with the public key to the same message.
pub open spec fn keypair_verdict(public_key_b64: Seq<char>, secret_key_b64: Seq<char>) -> Result<
    (),
    KeypairError,
> {
    match base64_bytes(secret_key_b64) {
        None => Err(KeypairError::SecretKeyEncoding),
        Some(sk) => if sk.len() != 64 {
            Err(KeypairError::SecretKeyLength)
        } else {
            match base64_bytes(public_key_b64) {
                None => Err(KeypairError::PublicKeyEncoding),
                Some(pk) => if pk.len() != 32 {
                    Err(KeypairError::PublicKeyLength)
                } else {
                    if ed25519_open(ed25519_signed(probe_message(), sk), pk) == Some(probe_message()) {
                        Ok(())
                    } else {
                        Err(KeypairError::Mismatch)
                    }
                },
            }
        },
    }
}

fn bytes_equal(a: &Vec<u8>, b: &Vec<u8>) -> (r: bool)
    ensures
        r == (a@ == b@),
{
    if a.len() != b.len() {
        return false;
    }
    let mut i: usize = 0;
    while i < a.len()
        invariant
            a@.len() == b@.len(),
            i <= a@.len(),
            forall|j: int| 0 <= j < i ==> a@[j] == b@[j],
        decreases a@.len() - i,
    {
        if a[i] != b[i] {
            return false;
        }
        i = i + 1;
    }
    assert(a@ =~= b@);
    true
}

/// Checks that a base64 public key and a base64 secret key form a pair.
pub fn validate_keypair(pk: &str, sk: &str) -> (r: Result<(), KeypairError>)
    ensures
        r == keypair_verdict(pk@, sk@),
{
    let sk_bytes = match base64_decode(sk) {
        Some(b) => b,
        None => {
            return Err(KeypairError::SecretKeyEncoding);
        },
    };
    let secret_key = match secret_key_from_slice(sk_bytes.as_slice()) {
        Some(k) => k,
        None => {
            return Err(KeypairError::SecretKeyLength);
        },
    };
    let pk_bytes = match base64_decode(pk) {
        Some(b) => b,
        None => {
            return Err(KeypairError::PublicKeyEncoding);
        },
    };
    let public_key = match public_key_from_slice(pk_bytes.as_slice()) {
        Some(k) => k,
        None => {
            return Err(KeypairError::PublicKeyLength);
        },
    };
    let probe: Vec<u8> = vec![84u8, 104, 105, 115, 32, 105, 115, 32, 109, 101, 104, 46];
    assert(probe@ =~= probe_message());
    let signed = ed25519_sign(probe.as_slice(), &secret_key);
    match ed25519_verify(signed.as_slice(), &public_key) {
        Some(opened) => if bytes_equal(&opened, &probe) {
            Ok(())
        } else {
            Err(KeypairError::Mismatch)
        },
        None => Err(KeypairError::Mismatch),
    }
}

/// The `.env` line `key=value`.
fn assignment_line(key: &str, value: &str) -> (line: String)
    ensures
        line@ == assignment(key@, value@),
{
    let key_chars = chars_vec(key);
    let value_chars = chars_vec(value);
    let mut line = String::new();
    push_chars(&mut line, &key_chars);
    push_char(&mut line, '=');
    push_chars(&mut line, &value_chars);
    assert(line@ =~= assignment(key@, value@));
    line
}

/// Hashes a legacy admin token with bcrypt and gives the setting line
/// `ADMIN_API_TOKEN_HASH=<hash>`; `None` where hashing fails. The hash is
/// random (salted) but always accepts the token.
pub fn token_hash_line(token: &str) -> (line: Option<String>)
    ensures
        line matches Some(l) ==> exists|h: Seq<char>|
            #[trigger] bcrypt_verdict(token@, h) == Some(true) && l@ == assignment(TOKEN_HASH_KEY@, h),
{
    match bcrypt_hash(token) {
        Some(hash) => Some(assignment_line(TOKEN_HASH_KEY, hash.as_str())),
        None => None,
    }
}

/// Why the admin settings were not prepared.
#[derive(Debug, PartialEq, Eq, Structural)]
pub enum InitAdminError {
    /// The `.env` text already sets a token hash and `force` was not given:
    /// replacing it would invalidate the token every client holds.
    AlreadyConfigured,
    /// The token could not be hashed.
    HashFailed,
}

/// A freshly generated admin token, its hash, a JWT secret, and the `.env`
/// text that holds the hash and the secret.
#[derive(Debug)]
pub struct AdminEnvUpdate {
    pub token: String,
    pub token_hash: String,
    pub jwt_secret: String,
    pub content: String,
}

/// What setting up the admin settings gives for the `.env` text `existing`,
/// the outcome of hashing the token, and the JWT secret: a refusal when a
/// token hash is already set and `force` is false; else a failure where the
/// hash is missing; else the text with `ADMIN_API_TOKEN_HASH` and then
/// `ADMIN_API_JWT_SECRET` set.
pub open spec fn admin_env_outcome(
    existing: Seq<char>,
    force: bool,
    token_hash: Option<Seq<char>>,
    jwt_secret: Seq<char>,
) -> Result<Seq<char>, InitAdminError> {
    if !force && sets_token_hash(existing) {
        Err(InitAdminError::AlreadyConfigured)
    } else {
        match token_hash {
            None => Err(InitAdminError::HashFailed),
            Some(h) => Ok(with_env_var(with_env_var(existing, TOKEN_HASH_KEY@, h), JWT_SECRET_KEY@, jwt_secret)),
        }
    }
}

/// The view of a possible string.
pub open spec fn opt_view(s: Option<String>) -> Option<Seq<char>> {
    match s {
        Some(v) => Some(v@),
        None => None,
    }
}

/// Completes the admin settings from a generated token and JWT secret and
/// the outcome of hashing the token (`None` where hashing failed).
pub fn admin_env_update(
    existing: &str,
    force: bool,
    token: String,
    jwt_secret: String,
    token_hash: Option<String>,
) -> (r: Result<AdminEnvUpdate, InitAdminError>)
    ensures
        match r {
            Ok(u) => {
                &&& u.token == token
                &&& u.jwt_secret == jwt_secret
                &&& token_hash == Some(u.token_hash)
                &&& admin_env_outcome(existing@, force, opt_view(token_hash), jwt_secret@) == Ok::<
                    Seq<char>,
                    InitAdminError,
                >(u.content@)
            },
            Err(e) => admin_env_outcome(existing@, force, opt_view(token_hash), jwt_secret@) == Err::<
                Seq<char>,
                InitAdminError,
            >(e),
        },
{
    if !force && has_admin_token_hash(existing) {
        return Err(InitAdminError::AlreadyConfigured);
    }
    let hash = match token_hash {
        Some(h) => h,
        None => {
            return Err(InitAdminError::HashFailed);
        },
    };
    let with_hash = merge_env_var(existing, TOKEN_HASH_KEY, hash.as_str());
    let content = merge_env_var(with_hash.as_str(), JWT_SECRET_KEY, jwt_secret.as_str());
    Ok(AdminEnvUpdate { token, token_hash: hash, jwt_secret, content })
}

/// Prepares the admin settings for an `.env` file whose current text is
/// `existing`: a random admin token and JWT secret (hex of `SECRET_BYTES`
/// random bytes each), the bcrypt hash of the token, and the text with
/// `ADMIN_API_TOKEN_HASH` and then `ADMIN_API_JWT_SECRET` set. Refuses, before
/// drawing anything, when a token hash is already set and `force` is false.
pub fn prepare_admin_env(existing: &str, force: bool) -> (r: Result<AdminEnvUpdate, InitAdminError>)
    ensures
        (r == Err::<AdminEnvUpdate, InitAdminError>(InitAdminError::AlreadyConfigured)) <==> (!force
            && sets_token_hash(existing@)),
        r matches Ok(u) ==> {
            &&& exists|b: Seq<u8>| b.len() == SECRET_BYTES && u.token@ == #[trigger] lower_hex(b)
            &&& exists|b: Seq<u8>| b.len() == SECRET_BYTES && u.jwt_secret@ == #[trigger] lower_hex(b)
            &&& bcrypt_verdict(u.token@, u.token_hash@) == Some(true)
            &&& u.token_hash@.len() == 60
            &&& forall|i: int| 0 <= i < u.token_hash@.len() ==> is_bcrypt_hash_char(#[trigger] u.token_hash@[i])
            &&& u.content@ == with_env_var(
                with_env_var(existing@, TOKEN_HASH_KEY@, u.token_hash@),
                JWT_SECRET_KEY@,
                u.jwt_secret@,
            )
        },
{
    if !force && has_admin_token_hash(existing) {
        return Err(InitAdminError::AlreadyConfigured);
    }
    let token_bytes = random_bytes(SECRET_BYTES);
    let secret_bytes = random_bytes(SECRET_BYTES);
    let token = to_hex(token_bytes.as_slice());
    let jwt_secret = to_hex(secret_bytes.as_slice());
    let token_hash = bcrypt_hash(token.as_str());
    admin_env_update(existing, force, token, jwt_secret, token_hash)
}

} // verus!
