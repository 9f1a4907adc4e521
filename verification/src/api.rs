//! The decisions of the admin presence HTTP API: which requests are refused
//! and with what status and code, the claims of a session token, and the
//! startup configuration (fail-closed when no authentication is set up).

use vstd::prelude::*;
use crate::auth::AuthError;
use crate::crypto::{bcrypt_verdict, bcrypt_verify};
use crate::text::chars_vec;

verus! {

/// Prefix of every admin API route.
pub const ADMIN_API_PATH_PREFIX: &'static str = "/admin/v1";

/// Port of the admin API when none is configured.
pub const DEFAULT_ADMIN_API_PORT: u16 = 21114;

/// Lifetime of a session token, in seconds.
pub const JWT_TTL_SECS: u64 = 900;

/// Issuer claim of session tokens.
pub const JWT_ISSUER: &'static str = "rustdesk-admin-presence";

/// Subject claim of session tokens.
pub const JWT_SUBJECT: &'static str = "admin";

/// Why a request to the admin API is refused.
#[derive(Debug, PartialEq, Eq, Structural)]
pub enum ApiRejection {
    /// The request body could not be read.
    MalformedRequest,
    /// The legacy shared-token login is not configured.
    NotSupported,
    /// The shared token, or the bearer token, is not valid.
    InvalidToken,
    /// No bearer token was presented.
    MissingToken,
    /// The device list was asked for with a status other than `online`.
    UnsupportedStatusFilter,
    /// A session token could not be issued.
    ServerError,
    /// The challenge-response exchange refused the request.
    Auth(AuthError),
}

/// HTTP status of each challenge-response error.
pub open spec fn auth_status(err: AuthError) -> u16 {
    match err {
        AuthError::InvalidPublicKey => 400,
        _ => 401,
    }
}

/// Machine-readable code of each challenge-response error.
pub open spec fn auth_code(err: AuthError) -> Seq<char> {
    match err {
        AuthError::UnknownOrRevokedKey => "unknown_or_revoked_key"@,
        AuthError::InvalidPublicKey => "invalid_public_key"@,
        AuthError::InvalidSignature => "invalid_signature"@,
        AuthError::NoSuchChallenge => "no_such_challenge"@,
        AuthError::ChallengeExpired => "challenge_expired"@,
    }
}

/// HTTP status of each refusal.
pub open spec fn rejection_status(r: ApiRejection) -> u16 {
    match r {
        ApiRejection::MalformedRequest => 400,
        ApiRejection::NotSupported => 404,
        ApiRejection::InvalidToken => 401,
        ApiRejection::MissingToken => 401,
        ApiRejection::UnsupportedStatusFilter => 400,
        ApiRejection::ServerError => 500,
        ApiRejection::Auth(e) => auth_status(e),
    }
}

/// Machine-readable code of each refusal, sent as `{"error": code}`.
pub open spec fn rejection_code(r: ApiRejection) -> Seq<char> {
    match r {
        ApiRejection::MalformedRequest => "malformed_request"@,
        ApiRejection::NotSupported => "not_supported"@,
        ApiRejection::InvalidToken => "invalid_token"@,
        ApiRejection::MissingToken => "missing_token"@,
        ApiRejection::UnsupportedStatusFilter => "unsupported_status_filter"@,
        ApiRejection::ServerError => "server_error"@,
        ApiRejection::Auth(e) => auth_code(e),
    }
}

/// The HTTP status that answers a challenge-response error.
pub fn auth_error_status(err: &AuthError) -> (status: u16)
    ensures
        status == auth_status(*err),
{
    match err {
        AuthError::UnknownOrRevokedKey => 401,
        AuthError::InvalidPublicKey => 400,
        AuthError::InvalidSignature => 401,
        AuthError::NoSuchChallenge => 401,
        AuthError::ChallengeExpired => 401,
    }
}

/// The error code that answers a challenge-response error.
pub fn auth_error_code(err: &AuthError) -> (code: &'static str)
    ensures
        code@ == auth_code(*err),
{
    match err {
        AuthError::UnknownOrRevokedKey => "unknown_or_revoked_key",
        AuthError::InvalidPublicKey => "invalid_public_key",
        AuthError::InvalidSignature => "invalid_signature",
        AuthError::NoSuchChallenge => "no_such_challenge",
        AuthError::ChallengeExpired => "challenge_expired",
    }
}

impl ApiRejection {
    /// The HTTP status of the refusal.
    pub fn status(&self) -> (s: u16)
        ensures
            s == rejection_status(*self),
    {
        match self {
            ApiRejection::MalformedRequest => 400,
            ApiRejection::NotSupported => 404,
            ApiRejection::InvalidToken => 401,
            ApiRejection::MissingToken => 401,
            ApiRejection::UnsupportedStatusFilter => 400,
            ApiRejection::ServerError => 500,
            ApiRejection::Auth(e) => auth_error_status(e),
        }
    }

    /// The error code of the refusal.
    pub fn code(&self) -> (c: &'static str)
        ensures
            c@ == rejection_code(*self),
    {
        match self {
            ApiRejection::MalformedRequest => "malformed_request",
            ApiRejection::NotSupported => "not_supported",
            ApiRejection::InvalidToken => "invalid_token",
            ApiRejection::MissingToken => "missing_token",
            ApiRejection::UnsupportedStatusFilter => "unsupported_status_filter",
            ApiRejection::ServerError => "server_error",
            ApiRejection::Auth(e) => auth_error_code(e),
        }
    }
}

/// The legacy shared-token login: refused as not supported where no token
/// hash is configured, and as an invalid token where bcrypt does not accept
/// the token against the hash (a malformed hash counts as a refusal).
pub fn check_legacy_login(token: &str, token_hash: Option<&str>) -> (r: Result<(), ApiRejection>)
    ensures
        match token_hash {
            None => r == Err::<(), ApiRejection>(ApiRejection::NotSupported),
            Some(h) => if bcrypt_verdict(token@, h@) == Some(true) {
                r is Ok
            } else {
                r == Err::<(), ApiRejection>(ApiRejection::InvalidToken)
            },
        },
{
    let hash = match token_hash {
        Some(h) => h,
        None => {
            return Err(ApiRejection::NotSupported);
        },
    };
    match bcrypt_verify(token, hash) {
        Some(true) => Ok(()),
        _ => Err(ApiRejection::InvalidToken),
    }
}

/// Whether `s` is the text `online`.
pub open spec fn is_online_filter(s: Seq<char>) -> bool {
    s == "online"@
}

fn is_online(s: &str) -> (b: bool)
    ensures
        b == is_online_filter(s@),
{
    let cs = chars_vec(s);
    let want = chars_vec("online");
    if cs.len() != want.len() {
        return false;
    }
    let mut i: usize = 0;
    while i < cs.len()
        invariant
            cs@ == s@,
            want@ == "online"@,
            cs@.len() == want@.len(),
            i <= cs@.len(),
            forall|j: int| 0 <= j < i ==> cs@[j] == want@[j],
        decreases cs@.len() - i,
    {
        if cs[i] != want[i] {
            return false;
        }
        i = i + 1;
    }
    assert(cs@ =~= want@);
    true
}

/// The device list request, in the order the server checks it: a bearer
/// token must be presented (`bearer` is `None` where there was none, else
/// whether the token verified), then the status filter must be `online`.
pub fn check_devices_request(bearer: Option<bool>, status: Option<&str>) -> (r: Result<(), ApiRejection>)
    ensures
        r == match bearer {
            None => Err(ApiRejection::MissingToken),
            Some(false) => Err(ApiRejection::InvalidToken),
            Some(true) => match status {
                Some(s) => if is_online_filter(s@) {
                    Ok(())
                } else {
                    Err(ApiRejection::UnsupportedStatusFilter)
                },
                None => Err(ApiRejection::UnsupportedStatusFilter),
            },
        },
{
    match bearer {
        None => {
            return Err(ApiRejection::MissingToken);
        },
        Some(false) => {
            return Err(ApiRejection::InvalidToken);
        },
        Some(true) => {},
    }
    match status {
        Some(s) => if is_online(s) {
            Ok(())
        } else {
            Err(ApiRejection::UnsupportedStatusFilter)
        },
        None => Err(ApiRejection::UnsupportedStatusFilter),
    }
}

/// The claims of a session token.
#[derive(Debug)]
pub struct SessionClaims {
    pub sub: String,
    pub iss: String,
    pub iat: u64,
    pub exp: u64,
}

/// The time from which a session issued at `now` is expired.
pub open spec fn session_expiry(now: u64) -> u64 {
    if now + JWT_TTL_SECS <= u64::MAX {
        (now + JWT_TTL_SECS) as u64
    } else {
        u64::MAX
    }
}

/// The claims of a session token issued at `now`: subject `admin`, issuer
/// `JWT_ISSUER`, valid for `JWT_TTL_SECS` seconds.
pub fn session_claims(now: u64) -> (c: SessionClaims)
    ensures
        c.sub@ == JWT_SUBJECT@,
        c.iss@ == JWT_ISSUER@,
        c.iat == now,
        c.exp == session_expiry(now),
{
    SessionClaims {
        sub: JWT_SUBJECT.to_owned(),
        iss: JWT_ISSUER.to_owned(),
        iat: now,
        exp: now.saturating_add(JWT_TTL_SECS),
    }
}

/// The value of a decimal digit character.
pub open spec fn digit_value(c: char) -> int {
    (c as int) - 48
}

pub open spec fn is_digit(c: char) -> bool {
    '0' <= c <= '9'
}

/// The number that a sequence of decimal digits writes.
pub open spec fn decimal_value(ds: Seq<char>) -> int
    decreases ds.len(),
{
    if ds.len() == 0 {
        0
    } else {
        decimal_value(ds.drop_last()) * 10 + digit_value(ds.last())
    }
}

/// The text after an optional leading `+`.
pub open spec fn unsigned_digits(s: Seq<char>) -> Seq<char> {
    if s.len() > 0 && s[0] == '+' {
        s.drop_first()
    } else {
        s
    }
}

/// Every character is a decimal digit.
pub open spec fn all_digits(ds: Seq<char>) -> bool {
    forall|i: int| 0 <= i < ds.len() ==> is_digit(#[trigger] ds[i])
}

/// What `str::parse::<u16>` gives: an optional `+`, then one or more
/// decimal digits whose value fits in 16 bits.
pub open spec fn parsed_u16(s: Seq<char>) -> Option<u16> {
    let ds = unsigned_digits(s);
    if ds.len() > 0 && all_digits(ds) && decimal_value(ds) <= u16::MAX {
        Some(decimal_value(ds) as u16)
    } else {
        None
    }
}

proof fn lemma_decimal_nonneg(ds: Seq<char>)
    requires
        forall|i: int| 0 <= i < ds.len() ==> is_digit(#[trigger] ds[i]),
    ensures
        decimal_value(ds) >= 0,
    decreases ds.len(),
{
    if ds.len() > 0 {
        assert(is_digit(ds[ds.len() - 1]));
        lemma_decimal_nonneg(ds.drop_last());
    }
}

proof fn lemma_decimal_prefix(ds: Seq<char>, i: int)
    requires
        0 <= i <= ds.len(),
        forall|j: int| 0 <= j < ds.len() ==> is_digit(#[trigger] ds[j]),
    ensures
        decimal_value(ds.take(i)) <= decimal_value(ds),
    decreases ds.len(),
{
    if i < ds.len() {
        assert(ds.drop_last().take(i) =~= ds.take(i));
        lemma_decimal_prefix(ds.drop_last(), i);
        lemma_decimal_nonneg(ds.drop_last());
        assert(is_digit(ds[ds.len() - 1]));
    } else {
        assert(ds.take(i) =~= ds);
    }
}

/// Parses a port number as `str::parse::<u16>` does.
pub fn parse_port(s: &str) -> (p: Option<u16>)
    ensures
        p == parsed_u16(s@),
{
    let cs = chars_vec(s);
    let n = cs.len();
    let start: usize = if n > 0 && cs[0] == '+' {
        1
    } else {
        0
    };
    let ghost ds = cs@.subrange(start as int, n as int);
    proof {
        if n > 0 && cs@[0] == '+' {
            assert(ds =~= cs@.drop_first());
        } else {
            assert(ds =~= cs@);
        }
    }
    if start == n {
        return None;
    }
    let mut acc: u32 = 0;
    let mut i = start;
    while i < n
        invariant
            cs@ == s@,
            n == cs@.len(),
            start < n,
            start <= i <= n,
            ds == cs@.subrange(start as int, n as int),
            ds == unsigned_digits(s@),
            forall|j: int| 0 <= j < i - start ==> is_digit(#[trigger] ds[j]),
            acc == decimal_value(ds.take(i - start)),
            acc <= u16::MAX,
        decreases n - i,
    {
        let c = cs[i];
        if !('0' <= c && c <= '9') {
            proof {
                assert(ds[i - start] == c);
                assert(!is_digit(ds[i - start]));
            }
            return None;
        }
        let d = (c as u32) - 48;
        proof {
            assert(ds[i - start] == c);
            assert(ds.take(i - start + 1).drop_last() =~= ds.take(i - start));
            assert(ds.take(i - start + 1).last() == c);
        }
        acc = acc * 10 + d;
        if acc > 65535 {
            proof {
                assert forall|j: int| 0 <= j < i - start + 1 implies is_digit(
                    #[trigger] ds.take(i - start + 1)[j],
                ) by {
                    assert(ds.take(i - start + 1)[j] == ds[j]);
                }
                if all_digits(ds) {
                    lemma_decimal_prefix(ds, i - start + 1);
                    assert(decimal_value(ds) > 65535);
                }
            }
            return None;
        }
        i = i + 1;
    }
    proof {
        assert(ds.take(n - start) =~= ds);
    }
    Some(acc as u16)
}

/// Whether the admin API runs, and with what settings.
#[derive(Debug)]
pub enum ServePlan {
    /// No admin key is enrolled: the API binds no port at all, whatever
    /// else is configured.
    Disabled,
    Enabled {
        /// The bcrypt hash that enables the legacy shared-token login
        /// beside key-based login.
        legacy_token_hash: Option<String>,
        /// The configured JWT secret; `None` where an ephemeral random
        /// secret must be drawn.
        jwt_secret: Option<String>,
        port: u16,
    },
}

/// A setting that is present and not empty.
pub open spec fn nonempty_setting(s: Option<String>) -> Option<String> {
    match s {
        Some(v) => if v@.len() > 0 {
            Some(v)
        } else {
            None
        },
        None => None,
    }
}

/// The port that a setting gives: the parsed value, else the default.
pub open spec fn port_from_setting(s: Option<String>) -> u16 {
    match s {
        Some(v) => match parsed_u16(v@) {
            Some(p) => p,
            None => DEFAULT_ADMIN_API_PORT,
        },
        None => DEFAULT_ADMIN_API_PORT,
    }
}

fn nonempty(s: Option<String>) -> (r: Option<String>)
    ensures
        r == nonempty_setting(s),
{
    match s {
        Some(v) => if !v.as_str().is_empty() {
            Some(v)
        } else {
            None
        },
        None => None,
    }
}

/// Decides how the admin API starts from its settings
/// (`ADMIN_API_TOKEN_HASH`, `ADMIN_API_JWT_SECRET`, `ADMIN_API_PORT`) and
/// whether the key store is empty. It is disabled, failing closed, exactly
/// when no key is enrolled: a legacy token hash alone never exposes it.
/// Empty settings count as absent, and a port that does not parse gives the
/// default.
pub fn plan_admin_api(
    token_hash_setting: Option<String>,
    keys_empty: bool,
    jwt_secret_setting: Option<String>,
    port_setting: Option<String>,
) -> (plan: ServePlan)
    ensures
        match plan {
            ServePlan::Disabled => keys_empty,
            ServePlan::Enabled { legacy_token_hash, jwt_secret, port } => {
                &&& !keys_empty
                &&& legacy_token_hash == nonempty_setting(token_hash_setting)
                &&& jwt_secret == nonempty_setting(jwt_secret_setting)
                &&& port == port_from_setting(port_setting)
            },
        },
{
    if keys_empty {
        return ServePlan::Disabled;
    }
    let legacy_token_hash = nonempty(token_hash_setting);
    let jwt_secret = nonempty(jwt_secret_setting);
    let port = match port_setting {
        Some(v) => match parse_port(v.as_str()) {
            Some(p) => p,
            None => DEFAULT_ADMIN_API_PORT,
        },
        None => DEFAULT_ADMIN_API_PORT,
    };
    ServePlan::Enabled { legacy_token_hash, jwt_secret, port }
}

} // verus!
