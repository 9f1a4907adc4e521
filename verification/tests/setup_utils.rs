use admin_presence::env_file::{has_admin_token_hash, merge_env_var};
use admin_presence::hex::{hex_prefix, to_hex};
use admin_presence::setup::{
    generate_keypair_b64, prepare_admin_env, token_hash_line, validate_keypair, InitAdminError,
    KeypairError,
};

#[test]
fn hex_is_lowercase_two_digits_per_byte() {
    assert_eq!(to_hex(&[0x00, 0xab, 0xff, 0x10]), "00abff10");
    assert_eq!(to_hex(&[]), "");
    assert_eq!(hex_prefix(&[0x01, 0x02, 0x03], 2), "0102");
}

#[test]
fn merge_appends_a_missing_key() {
    assert_eq!(merge_env_var("", "K", "V"), "K=V\n");
    assert_eq!(merge_env_var("A=1", "K", "V"), "A=1\nK=V\n");
    assert_eq!(merge_env_var("A=1\n\n", "K", "V"), "A=1\n\nK=V\n");
}

#[test]
fn merge_replaces_the_first_assignment_only() {
    let existing = "# comment K=x\n  k = old\nOTHER=1\nK=second\n";
    assert_eq!(
        merge_env_var(existing, "K", "new"),
        "# comment K=x\nK=new\nOTHER=1\nK=second\n"
    );
    // Comments, including `;` ones, are never taken for settings.
    assert_eq!(merge_env_var("; K=1\n#K=2", "K", "v"), "; K=1\n#K=2\nK=v\n");
    // Lines without `=` are kept.
    assert_eq!(merge_env_var("K\nX=1", "K", "v"), "K\nX=1\nK=v\n");
}

#[test]
fn merge_normalizes_crlf_line_endings() {
    assert_eq!(merge_env_var("A=1\r\nK=2\r\n", "K", "v"), "A=1\nK=v\n");
}

#[test]
fn token_hash_detection() {
    assert!(has_admin_token_hash("ADMIN_API_TOKEN_HASH=abc"));
    assert!(has_admin_token_hash("x=1\n admin_api_token_hash = $2b$12$x \n"));
    assert!(!has_admin_token_hash("ADMIN_API_TOKEN_HASH=   "));
    assert!(!has_admin_token_hash("# ADMIN_API_TOKEN_HASH=abc"));
    assert!(!has_admin_token_hash(";ADMIN_API_TOKEN_HASH=abc"));
    assert!(!has_admin_token_hash(""));
    assert!(!has_admin_token_hash("ADMIN_API_TOKEN_HASHX=abc"));
}

#[test]
fn init_admin_writes_hash_and_secret_and_refuses_to_overwrite() {
    let existing = "# server settings\nRELAY=example\n";
    let update = prepare_admin_env(existing, false).unwrap();
    assert_eq!(update.token.len(), 64);
    assert_eq!(update.jwt_secret.len(), 64);
    assert!(bcrypt::verify(&update.token, &update.token_hash).unwrap());
    assert_eq!(
        update.content,
        format!(
            "# server settings\nRELAY=example\nADMIN_API_TOKEN_HASH={}\nADMIN_API_JWT_SECRET={}\n",
            update.token_hash, update.jwt_secret
        )
    );
    assert!(has_admin_token_hash(&update.content));
    assert_eq!(prepare_admin_env(&update.content, false).unwrap_err(), InitAdminError::AlreadyConfigured);
    let forced = prepare_admin_env(&update.content, true).unwrap();
    assert_ne!(forced.token, update.token);
    assert!(forced.content.contains(&format!("ADMIN_API_TOKEN_HASH={}\n", forced.token_hash)));
    assert!(!forced.content.contains(&update.token_hash));
}

#[test]
fn hashtoken_line_holds_a_hash_of_the_token() {
    let line = token_hash_line("my-token").unwrap();
    let hash = line.strip_prefix("ADMIN_API_TOKEN_HASH=").unwrap();
    assert!(bcrypt::verify("my-token", hash).unwrap());
    assert!(!bcrypt::verify("other", hash).unwrap());
}

#[test]
fn generated_keypair_validates() {
    let (pk, sk) = generate_keypair_b64();
    assert_eq!(validate_keypair(&pk, &sk), Ok(()));
    let sk_bytes = base64::decode(&sk).unwrap();
    assert_eq!(&sk_bytes[32..], &base64::decode(&pk).unwrap()[..]);
}

#[test]
fn keypair_errors_in_check_order() {
    let (pk, sk) = generate_keypair_b64();
    let (other_pk, _other_sk) = generate_keypair_b64();
    assert_eq!(validate_keypair(&other_pk, &sk), Err(KeypairError::Mismatch));
    assert_eq!(validate_keypair(&pk, "%%%"), Err(KeypairError::SecretKeyEncoding));
    assert_eq!(validate_keypair(&pk, "AAAA"), Err(KeypairError::SecretKeyLength));
    assert_eq!(validate_keypair("%%%", &sk), Err(KeypairError::PublicKeyEncoding));
    assert_eq!(validate_keypair("AAAA", &sk), Err(KeypairError::PublicKeyLength));
    assert_eq!(KeypairError::SecretKeyEncoding.message(), "Invalid secret key");
    assert_eq!(KeypairError::SecretKeyLength.message(), "Invalid Secret key");
    assert_eq!(KeypairError::PublicKeyEncoding.message(), "Invalid public key");
    assert_eq!(KeypairError::PublicKeyLength.message(), "Invalid Public key");
    assert_eq!(KeypairError::Mismatch.message(), "Key pair is INVALID");
}
