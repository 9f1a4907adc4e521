use admin_presence::api::{
    auth_error_code, auth_error_status, check_devices_request, check_legacy_login, parse_port,
    plan_admin_api, session_claims, ApiRejection, ServePlan, DEFAULT_ADMIN_API_PORT, JWT_ISSUER,
    JWT_TTL_SECS,
};
use admin_presence::auth::AuthError;

#[test]
fn auth_errors_map_to_status_and_code() {
    let cases = [
        (AuthError::UnknownOrRevokedKey, 401, "unknown_or_revoked_key"),
        (AuthError::InvalidPublicKey, 400, "invalid_public_key"),
        (AuthError::InvalidSignature, 401, "invalid_signature"),
        (AuthError::NoSuchChallenge, 401, "no_such_challenge"),
        (AuthError::ChallengeExpired, 401, "challenge_expired"),
    ];
    for (err, status, code) in cases {
        assert_eq!(auth_error_status(&err), status);
        assert_eq!(auth_error_code(&err), code);
    }
}

#[test]
fn rejections_map_to_status_and_code() {
    assert_eq!(ApiRejection::MalformedRequest.status(), 400);
    assert_eq!(ApiRejection::MalformedRequest.code(), "malformed_request");
    assert_eq!(ApiRejection::NotSupported.status(), 404);
    assert_eq!(ApiRejection::NotSupported.code(), "not_supported");
    assert_eq!(ApiRejection::InvalidToken.status(), 401);
    assert_eq!(ApiRejection::InvalidToken.code(), "invalid_token");
    assert_eq!(ApiRejection::MissingToken.status(), 401);
    assert_eq!(ApiRejection::MissingToken.code(), "missing_token");
    assert_eq!(ApiRejection::UnsupportedStatusFilter.status(), 400);
    assert_eq!(ApiRejection::UnsupportedStatusFilter.code(), "unsupported_status_filter");
    assert_eq!(ApiRejection::ServerError.status(), 500);
    assert_eq!(ApiRejection::ServerError.code(), "server_error");
    assert_eq!(ApiRejection::Auth(AuthError::InvalidPublicKey).status(), 400);
    assert_eq!(ApiRejection::Auth(AuthError::NoSuchChallenge).code(), "no_such_challenge");
}

#[test]
fn legacy_login_needs_a_configured_hash_that_accepts_the_token() {
    assert_eq!(check_legacy_login("secret", None), Err(ApiRejection::NotSupported));
    let hash = bcrypt::hash("secret", 4).unwrap();
    assert_eq!(check_legacy_login("secret", Some(&hash)), Ok(()));
    assert_eq!(check_legacy_login("wrong", Some(&hash)), Err(ApiRejection::InvalidToken));
    assert_eq!(check_legacy_login("secret", Some("garbage")), Err(ApiRejection::InvalidToken));
}

#[test]
fn device_list_checks_token_then_status() {
    assert_eq!(check_devices_request(None, Some("online")), Err(ApiRejection::MissingToken));
    assert_eq!(check_devices_request(Some(false), Some("online")), Err(ApiRejection::InvalidToken));
    assert_eq!(check_devices_request(Some(true), Some("online")), Ok(()));
    assert_eq!(check_devices_request(Some(true), Some("offline")), Err(ApiRejection::UnsupportedStatusFilter));
    assert_eq!(check_devices_request(Some(true), Some("ONLINE")), Err(ApiRejection::UnsupportedStatusFilter));
    assert_eq!(check_devices_request(Some(true), None), Err(ApiRejection::UnsupportedStatusFilter));
    assert_eq!(check_devices_request(None, None), Err(ApiRejection::MissingToken));
}

#[test]
fn session_claims_last_the_token_ttl() {
    let claims = session_claims(1_000);
    assert_eq!(claims.sub, "admin");
    assert_eq!(claims.iss, JWT_ISSUER);
    assert_eq!(claims.iat, 1_000);
    assert_eq!(claims.exp, 1_000 + JWT_TTL_SECS);
    assert_eq!(JWT_TTL_SECS, 900);
    assert_eq!(session_claims(u64::MAX).exp, u64::MAX);
}

#[test]
fn port_parsing_matches_std() {
    for s in ["21114", "+80", "0", "65535", "65536", "", "+", "-1", " 80", "80 ", "099", "1a", "99999999999", "++1"] {
        assert_eq!(parse_port(s), s.parse::<u16>().ok(), "input {s:?}");
    }
}

#[test]
fn api_is_disabled_without_keys_or_legacy_hash() {
    assert!(matches!(plan_admin_api(None, true, None, None), ServePlan::Disabled));
    assert!(matches!(plan_admin_api(Some(String::new()), true, None, None), ServePlan::Disabled));
    // A legacy token hash alone does not expose the API: it is ed25519-only.
    assert!(matches!(plan_admin_api(Some("$2b$hash".to_string()), true, None, None), ServePlan::Disabled));
    match plan_admin_api(None, false, Some("s3cret".to_string()), Some("8080".to_string())) {
        ServePlan::Enabled { legacy_token_hash, jwt_secret, port } => {
            assert_eq!(legacy_token_hash, None);
            assert_eq!(jwt_secret.as_deref(), Some("s3cret"));
            assert_eq!(port, 8080);
        }
        ServePlan::Disabled => panic!("expected the API to be enabled"),
    }
    match plan_admin_api(Some("$2b$hash".to_string()), false, Some(String::new()), Some("nope".to_string())) {
        ServePlan::Enabled { legacy_token_hash, jwt_secret, port } => {
            assert_eq!(legacy_token_hash.as_deref(), Some("$2b$hash"));
            assert_eq!(jwt_secret, None);
            assert_eq!(port, DEFAULT_ADMIN_API_PORT);
        }
        ServePlan::Disabled => panic!("expected the API to be enabled"),
    }
}
