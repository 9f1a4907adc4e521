use admin_presence::auth::{AuthError, ChallengeStore, CHALLENGE_TTL_SECS};
use admin_presence::hex::to_hex;
use admin_presence::keys::AdminKeyStore;
use sodiumoxide::crypto::sign;

fn temp_keys(name: &str) -> AdminKeyStore {
    AdminKeyStore::empty(format!("admin_auth_test_{name}.json"))
}

fn sign_nonce(sk: &sign::SecretKey, nonce: &str) -> String {
    let signed = sign::sign(nonce.as_bytes(), sk);
    // `sign::sign` returns signature++message; strip the message back
    // off so we transmit only the signature, mirroring how a real client
    // would compute and send just the detached signature bytes.
    let sig_len = signed.len() - nonce.as_bytes().len();
    base64::encode(&signed[..sig_len])
}

#[test]
fn full_challenge_response_roundtrip_succeeds() {
    let mut keys = temp_keys("roundtrip");
    let (pk, sk) = sign::gen_keypair();
    keys.add(&pk.0, "test-client").unwrap();
    let pk_b64 = base64::encode(pk.as_ref());

    let mut challenges = ChallengeStore::default();
    let nonce = challenges.issue(&keys, &pk_b64).unwrap();
    let sig_b64 = sign_nonce(&sk, &nonce);

    let fingerprint = challenges.verify(&keys, &pk_b64, &nonce, &sig_b64).unwrap();
    assert_eq!(fingerprint, keys.list()[0].fingerprint);
}

#[test]
fn nonce_cannot_be_replayed() {
    let mut keys = temp_keys("replay");
    let (pk, sk) = sign::gen_keypair();
    keys.add(&pk.0, "test-client").unwrap();
    let pk_b64 = base64::encode(pk.as_ref());

    let mut challenges = ChallengeStore::default();
    let nonce = challenges.issue(&keys, &pk_b64).unwrap();
    let sig_b64 = sign_nonce(&sk, &nonce);

    assert!(challenges.verify(&keys, &pk_b64, &nonce, &sig_b64).is_ok());
    let replay = challenges.verify(&keys, &pk_b64, &nonce, &sig_b64);
    assert!(matches!(replay, Err(AuthError::NoSuchChallenge)));
}

#[test]
fn wrong_key_signature_is_rejected() {
    let mut keys = temp_keys("wrongkey");
    let (pk, _sk) = sign::gen_keypair();
    keys.add(&pk.0, "test-client").unwrap();
    let pk_b64 = base64::encode(pk.as_ref());

    let (_other_pk, other_sk) = sign::gen_keypair();

    let mut challenges = ChallengeStore::default();
    let nonce = challenges.issue(&keys, &pk_b64).unwrap();
    // Sign with a *different* key's secret than the one the challenge
    // was issued to.
    let sig_b64 = sign_nonce(&other_sk, &nonce);

    let result = challenges.verify(&keys, &pk_b64, &nonce, &sig_b64);
    assert!(matches!(result, Err(AuthError::InvalidSignature)));
}

#[test]
fn revoked_key_cannot_get_a_challenge() {
    let mut keys = temp_keys("revoked");
    let (pk, _sk) = sign::gen_keypair();
    let record = keys.add(&pk.0, "test-client").unwrap();
    keys.revoke(&record.fingerprint);
    let pk_b64 = base64::encode(pk.as_ref());

    let mut challenges = ChallengeStore::default();
    let result = challenges.issue(&keys, &pk_b64);
    assert!(matches!(result, Err(AuthError::UnknownOrRevokedKey)));
}

#[test]
fn unknown_key_cannot_get_a_challenge() {
    let keys = temp_keys("unknown");
    let (pk, _sk) = sign::gen_keypair();
    let pk_b64 = base64::encode(pk.as_ref());

    let mut challenges = ChallengeStore::default();
    let result = challenges.issue(&keys, &pk_b64);
    assert!(matches!(result, Err(AuthError::UnknownOrRevokedKey)));
}

#[test]
fn nonce_from_different_key_is_rejected() {
    let mut keys = temp_keys("crosskey");
    let (pk_a, _sk_a) = sign::gen_keypair();
    let (pk_b, sk_b) = sign::gen_keypair();
    keys.add(&pk_a.0, "client-a").unwrap();
    keys.add(&pk_b.0, "client-b").unwrap();
    let pk_a_b64 = base64::encode(pk_a.as_ref());
    let pk_b_b64 = base64::encode(pk_b.as_ref());

    let mut challenges = ChallengeStore::default();
    // Challenge issued to client A's key...
    let nonce = challenges.issue(&keys, &pk_a_b64).unwrap();
    // ...but client B tries to answer it with its own (validly signed)
    // signature.
    let sig_b64 = sign_nonce(&sk_b, &nonce);
    let result = challenges.verify(&keys, &pk_b_b64, &nonce, &sig_b64);
    assert!(matches!(result, Err(AuthError::NoSuchChallenge)));
}

fn enrolled() -> (AdminKeyStore, String, sign::SecretKey) {
    let mut keys = temp_keys("fixed");
    let (pk, sk) = sign::gen_keypair();
    keys.add_at(&pk.0, "client", 1).unwrap();
    (keys, base64::encode(pk.as_ref()), sk)
}

#[test]
fn nonce_is_hex_of_the_random_bytes() {
    let (keys, pk_b64, _sk) = enrolled();
    let mut challenges = ChallengeStore::default();
    let nonce = challenges.issue_with(&keys, &pk_b64, 1000, &[0xab, 0x01]).unwrap();
    assert_eq!(nonce, "ab01");
    assert_eq!(nonce, to_hex(&[0xab, 0x01]));
    let random = challenges.issue(&keys, &pk_b64).unwrap();
    assert_eq!(random.len(), 64);
}

#[test]
fn challenge_expires_after_its_ttl() {
    let (keys, pk_b64, sk) = enrolled();
    let mut challenges = ChallengeStore::default();
    let nonce = challenges.issue_with(&keys, &pk_b64, 1000, &[1, 2, 3]).unwrap();
    let sig = sign_nonce(&sk, &nonce);
    let late = challenges.verify_at(&keys, &pk_b64, &nonce, &sig, 1000 + CHALLENGE_TTL_SECS);
    assert_eq!(late, Err(AuthError::NoSuchChallenge));

    let nonce = challenges.issue_with(&keys, &pk_b64, 2000, &[4, 5, 6]).unwrap();
    let sig = sign_nonce(&sk, &nonce);
    let in_time = challenges.verify_at(&keys, &pk_b64, &nonce, &sig, 2000 + CHALLENGE_TTL_SECS - 1);
    assert!(in_time.is_ok());
}

#[test]
fn failed_signature_consumes_the_nonce() {
    let (keys, pk_b64, sk) = enrolled();
    let (_other_pk, other_sk) = sign::gen_keypair();
    let mut challenges = ChallengeStore::default();
    let nonce = challenges.issue_with(&keys, &pk_b64, 10, &[9]).unwrap();
    let bad = sign_nonce(&other_sk, &nonce);
    assert_eq!(challenges.verify_at(&keys, &pk_b64, &nonce, &bad, 11), Err(AuthError::InvalidSignature));
    let good = sign_nonce(&sk, &nonce);
    assert_eq!(challenges.verify_at(&keys, &pk_b64, &nonce, &good, 12), Err(AuthError::NoSuchChallenge));
}

#[test]
fn undecodable_signature_is_invalid() {
    let (keys, pk_b64, _sk) = enrolled();
    let mut challenges = ChallengeStore::default();
    let nonce = challenges.issue_with(&keys, &pk_b64, 10, &[9]).unwrap();
    assert_eq!(challenges.verify_at(&keys, &pk_b64, &nonce, "***", 11), Err(AuthError::InvalidSignature));
}

#[test]
fn malformed_public_keys_are_refused() {
    let (keys, _pk_b64, _sk) = enrolled();
    let mut challenges = ChallengeStore::default();
    assert_eq!(challenges.issue_with(&keys, "not base64!", 1, &[1]), Err(AuthError::InvalidPublicKey));
    let short = base64::encode([1u8; 31]);
    assert_eq!(challenges.issue_with(&keys, &short, 1, &[1]), Err(AuthError::InvalidPublicKey));
    assert_eq!(challenges.verify_at(&keys, &short, "00", "AAAA", 1), Err(AuthError::InvalidPublicKey));
}

#[test]
fn cross_key_attempt_leaves_the_challenge_for_its_owner() {
    let mut keys = temp_keys("cross");
    let (pk_a, sk_a) = sign::gen_keypair();
    let (pk_b, sk_b) = sign::gen_keypair();
    keys.add_at(&pk_a.0, "a", 1).unwrap();
    keys.add_at(&pk_b.0, "b", 1).unwrap();
    let a = base64::encode(pk_a.as_ref());
    let b = base64::encode(pk_b.as_ref());
    let mut challenges = ChallengeStore::default();
    let nonce = challenges.issue_with(&keys, &a, 100, &[7, 7]).unwrap();
    let sig_b = sign_nonce(&sk_b, &nonce);
    assert_eq!(challenges.verify_at(&keys, &b, &nonce, &sig_b, 101), Err(AuthError::NoSuchChallenge));
    let sig_a = sign_nonce(&sk_a, &nonce);
    let fp = challenges.verify_at(&keys, &a, &nonce, &sig_a, 102).unwrap();
    assert_eq!(fp, admin_presence::keys::fingerprint_of(pk_a.as_ref()));
}

#[test]
fn auth_error_messages() {
    assert_eq!(AuthError::UnknownOrRevokedKey.message(), "unknown or revoked public key");
    assert_eq!(AuthError::InvalidPublicKey.message(), "malformed public key");
    assert_eq!(AuthError::InvalidSignature.message(), "signature verification failed");
    assert_eq!(AuthError::NoSuchChallenge.message(), "no matching outstanding challenge");
    assert_eq!(AuthError::ChallengeExpired.message(), "challenge expired, request a new one");
}

#[test]
fn refused_key_leaves_outstanding_challenges() {
    let (keys, pk_b64, sk) = enrolled();
    let mut challenges = ChallengeStore::default();
    let nonce = challenges.issue_with(&keys, &pk_b64, 50, &[3, 1, 4]).unwrap();
    let (stranger, _) = sign::gen_keypair();
    let stranger_b64 = base64::encode(stranger.as_ref());
    assert_eq!(challenges.issue_with(&keys, &stranger_b64, 51, &[2]), Err(AuthError::UnknownOrRevokedKey));
    assert_eq!(
        challenges.verify_at(&keys, &stranger_b64, &nonce, "AAAA", 52),
        Err(AuthError::UnknownOrRevokedKey)
    );
    let sig = sign_nonce(&sk, &nonce);
    assert!(challenges.verify_at(&keys, &pk_b64, &nonce, &sig, 53).is_ok());
}

#[test]
fn revoked_and_unknown_keys_get_the_same_answer() {
    let mut keys = temp_keys("alike");
    let (revoked_pk, _) = sign::gen_keypair();
    let (unknown_pk, _) = sign::gen_keypair();
    let record = keys.add_at(&revoked_pk.0, "gone", 1).unwrap();
    assert!(keys.revoke(&record.fingerprint));
    let mut challenges = ChallengeStore::default();
    let a = challenges.issue_with(&keys, &base64::encode(revoked_pk.as_ref()), 5, &[1]);
    let b = challenges.issue_with(&keys, &base64::encode(unknown_pk.as_ref()), 5, &[1]);
    assert_eq!(a, b);
    assert_eq!(a, Err(AuthError::UnknownOrRevokedKey));
}

#[test]
fn signature_field_must_be_a_detached_signature() {
    let (keys, pk_b64, sk) = enrolled();
    let mut challenges = ChallengeStore::default();
    let nonce = challenges.issue_with(&keys, &pk_b64, 10, &[8, 8]).unwrap();
    // A signature over `prefix ++ nonce` followed by the prefix opens to
    // `prefix ++ nonce`, but it is no signature over the nonce.
    let mut message = b"prefix".to_vec();
    message.extend_from_slice(nonce.as_bytes());
    let signed = sign::sign(&message, &sk);
    let field = base64::encode(&signed[..signed.len() - nonce.len()]);
    assert_eq!(challenges.verify_at(&keys, &pk_b64, &nonce, &field, 11), Err(AuthError::InvalidSignature));
}
