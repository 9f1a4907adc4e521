//! ed25519 challenge-response authentication over the authorized-key store.
//!
//! A client presents its public key and receives a random nonce, bound on
//! the server to that key's fingerprint and valid for `CHALLENGE_TTL_SECS`.
//! It signs the nonce and sends the signature back with the key. The server
//! accepts when the key is active, the nonce is outstanding, unexpired and
//! bound to that key, and the signature verifies. The nonce is single use:
//! an attempt by its own key consumes it, whether the signature verifies or
//! not.

use vstd::prelude::*;
use crate::crypto::{
    base64_bytes, base64_decode, ed25519_open, ed25519_verify, now_secs, public_key_from_slice,
    random_bytes,
};
use crate::hex::{lower_hex, to_hex};
use crate::keys::{active_record, AdminKeyStore, AuthorizedKey};
use crate::string_map::StringMap;
use vstd::string::StringSliceAdditionalSpecFns;

verus! {

/// How long, in seconds, a challenge nonce stays valid.
pub const CHALLENGE_TTL_SECS: u64 = 30;

/// Number of random bytes in a nonce (it is sent as twice as many hex digits).
pub const NONCE_BYTES: usize = 32;

/// Number of bytes in a detached ed25519 signature.
pub const SIGNATURE_BYTES: usize = 64;

/// An outstanding challenge: the fingerprint of the key it was issued to and
/// the Unix time (seconds) from which it is expired.
#[derive(Debug)]
pub struct PendingChallenge {
    pub fingerprint: String,
    pub expires_at: u64,
}

/// Why a challenge could not be issued or a response was refused.
#[derive(Debug, PartialEq, Eq, Structural)]
pub enum AuthError {
    UnknownOrRevokedKey,
    InvalidPublicKey,
    InvalidSignature,
    NoSuchChallenge,
    ChallengeExpired,
}

impl AuthError {
    /// The text that describes the error.
    pub fn message(&self) -> (m: &'static str)
        ensures
            m@ == auth_error_text(*self),
    {
        match self {
            AuthError::UnknownOrRevokedKey => "unknown or revoked public key",
            AuthError::InvalidPublicKey => "malformed public key",
            AuthError::InvalidSignature => "signature verification failed",
            AuthError::NoSuchChallenge => "no matching outstanding challenge",
            AuthError::ChallengeExpired => "challenge expired, request a new one",
        }
    }
}

/// The description of each error.
pub open spec fn auth_error_text(e: AuthError) -> Seq<char> {
    match e {
        AuthError::UnknownOrRevokedKey => "unknown or revoked public key"@,
        AuthError::InvalidPublicKey => "malformed public key"@,
        AuthError::InvalidSignature => "signature verification failed"@,
        AuthError::NoSuchChallenge => "no matching outstanding challenge"@,
        AuthError::ChallengeExpired => "challenge expired, request a new one"@,
    }
}

/// The outstanding challenges that are still valid at time `now`.
pub open spec fn live_challenges(m: Map<Seq<char>, PendingChallenge>, now: u64) -> Map<
    Seq<char>,
    PendingChallenge,
> {
    Map::new(|k: Seq<char>| m.contains_key(k) && m[k].expires_at > now, |k: Seq<char>| m[k])
}

/// The time from which a challenge issued at `now` is expired.
pub open spec fn expiry_of(now: u64) -> u64 {
    if now + CHALLENGE_TTL_SECS <= u64::MAX {
        (now + CHALLENGE_TTL_SECS) as u64
    } else {
        u64::MAX
    }
}

/// The raw public key that a base64 text stands for, where it decodes to
/// exactly 32 bytes.
pub open spec fn decoded_public_key(public_key_b64: Seq<char>) -> Option<Seq<u8>> {
    match base64_bytes(public_key_b64) {
        Some(b) => if b.len() == 32 {
            Some(b)
        } else {
            None
        },
        None => None,
    }
}

/// The active key record for a base64 public key, or the error that the
/// key gives.
pub open spec fn presented_key(
    keys: Map<Seq<char>, AuthorizedKey>,
    public_key_b64: Seq<char>,
) -> Result<(Seq<u8>, AuthorizedKey), AuthError> {
    match decoded_public_key(public_key_b64) {
        None => Err(AuthError::InvalidPublicKey),
        Some(pk) => match active_record(keys, pk) {
            None => Err(AuthError::UnknownOrRevokedKey),
            Some(rec) => Ok((pk, rec)),
        },
    }
}

/// The challenges after, and the result of, issuing a challenge at time
/// `now` with the random bytes `nonce_bytes`.
pub open spec fn issue_outcome(
    pending: Map<Seq<char>, PendingChallenge>,
    keys: Map<Seq<char>, AuthorizedKey>,
    public_key_b64: Seq<char>,
    now: u64,
    nonce_bytes: Seq<u8>,
) -> (Map<Seq<char>, PendingChallenge>, Result<Seq<char>, AuthError>) {
    match presented_key(keys, public_key_b64) {
        Err(e) => (pending, Err(e)),
        Ok((pk, rec)) => {
            let nonce = lower_hex(nonce_bytes);
            (
                live_challenges(pending, now).insert(
                    nonce,
                    PendingChallenge { fingerprint: rec.fingerprint, expires_at: expiry_of(now) },
                ),
                Ok(nonce),
            )
        },
    }
}

/// The challenges after, and the result of, a response at time `now`: the
/// key in base64, the nonce, the signature in base64, and the bytes of the
/// nonce that the signature covers. The signature must be a detached one
/// (64 bytes) that verifies over those bytes.
pub open spec fn verify_outcome(
    pending: Map<Seq<char>, PendingChallenge>,
    keys: Map<Seq<char>, AuthorizedKey>,
    public_key_b64: Seq<char>,
    nonce: Seq<char>,
    nonce_bytes: Seq<u8>,
    signature_b64: Seq<char>,
    now: u64,
) -> (Map<Seq<char>, PendingChallenge>, Result<Seq<char>, AuthError>) {
    match presented_key(keys, public_key_b64) {
        Err(e) => (pending, Err(e)),
        Ok((pk, rec)) => {
            let live = live_challenges(pending, now);
            if !live.contains_key(nonce) || live[nonce].fingerprint@ != rec.fingerprint@ {
                (live, Err(AuthError::NoSuchChallenge))
            } else {
                let consumed = live.remove(nonce);
                match base64_bytes(signature_b64) {
                    None => (consumed, Err(AuthError::InvalidSignature)),
                    Some(sig) => if sig.len() == SIGNATURE_BYTES && ed25519_open(sig + nonce_bytes, pk)
                        is Some {
                        (consumed, Ok(rec.fingerprint@))
                    } else {
                        (consumed, Err(AuthError::InvalidSignature))
                    },
                }
            }
        },
    }
}

/// A result with its string taken by its view.
pub open spec fn result_view(r: Result<String, AuthError>) -> Result<Seq<char>, AuthError> {
    match r {
        Ok(s) => Ok(s@),
        Err(e) => Err(e),
    }
}

impl PendingChallenge {
    fn copy_of(&self) -> (c: Self)
        ensures
            c == *self,
    {
        PendingChallenge { fingerprint: self.fingerprint.clone(), expires_at: self.expires_at }
    }
}

/// The outstanding challenge nonces, kept in memory only: a restart simply
/// invalidates logins in flight.
pub struct ChallengeStore {
    pending: StringMap<PendingChallenge>,
}

impl View for ChallengeStore {
    type V = Map<Seq<char>, PendingChallenge>;

    closed spec fn view(&self) -> Map<Seq<char>, PendingChallenge> {
        self.pending@
    }
}

impl Default for ChallengeStore {
    fn default() -> (s: Self)
        ensures
            s.wf(),
            s@ == Map::<Seq<char>, PendingChallenge>::empty(),
    {
        ChallengeStore { pending: StringMap::new() }
    }
}

impl ChallengeStore {
    pub closed spec fn wf(&self) -> bool {
        self.pending.wf()
    }

    /// Drops the challenges that are expired at `now`.
    fn sweep(&mut self, now: u64)
        requires
            old(self).wf(),
        ensures
            final(self).wf(),
            final(self)@ == live_challenges(old(self)@, now),
    {
        let ghost before = self@;
        let unexpired = |c: &PendingChallenge| -> (b: bool)
            ensures
                b == (c.expires_at > now),
            { c.expires_at > now };
        self.pending.retain(unexpired, Ghost(|c: PendingChallenge| c.expires_at > now));
        assert(self@ =~= live_challenges(before, now));
    }

    /// The public key in base64, decoded and checked to be a 32-byte key
    /// with an active record.
    fn check_presented_key(keys: &AdminKeyStore, public_key_b64: &str) -> (r: Result<([u8; 32], AuthorizedKey), AuthError>)
        requires
            keys.wf(),
        ensures
            match (r, presented_key(keys@, public_key_b64@)) {
                (Ok((pk, rec)), Ok((spk, srec))) => pk@ == spk && rec == srec,
                (Err(e), Err(se)) => e == se,
                _ => false,
            },
    {
        let pk_bytes = match base64_decode(public_key_b64) {
            Some(b) => b,
            None => {
                return Err(AuthError::InvalidPublicKey);
            },
        };
        let public_key = match public_key_from_slice(pk_bytes.as_slice()) {
            Some(k) => k,
            None => {
                return Err(AuthError::InvalidPublicKey);
            },
        };
        match keys.find_active(public_key.as_slice()) {
            Some(rec) => Ok((public_key, rec)),
            None => Err(AuthError::UnknownOrRevokedKey),
        }
    }

    /// Issues a challenge at time `now` whose nonce is the hex of
    /// `nonce_bytes`, first confirming that the key is an active authorized
    /// key. Expired challenges are swept. The nonce says nothing of the key;
    /// the binding is kept here.
    pub fn issue_with(
        &mut self,
        keys: &AdminKeyStore,
        public_key_b64: &str,
        now: u64,
        nonce_bytes: &[u8],
    ) -> (r: Result<String, AuthError>)
        requires
            old(self).wf(),
            keys.wf(),
        ensures
            final(self).wf(),
            (final(self)@, result_view(r)) == issue_outcome(
                old(self)@,
                keys@,
                public_key_b64@,
                now,
                nonce_bytes@,
            ),
    {
        let (_pk, record) = match Self::check_presented_key(keys, public_key_b64) {
            Ok(found) => found,
            Err(e) => {
                return Err(e);
            },
        };
        let nonce = to_hex(nonce_bytes);
        self.sweep(now);
        let expires_at = now.saturating_add(CHALLENGE_TTL_SECS);
        self.pending.insert(
            nonce.clone(),
            PendingChallenge { fingerprint: record.fingerprint, expires_at },
        );
        Ok(nonce)
    }

    /// Issues a challenge for a base64 public key at the current time, with
    /// a fresh random nonce of `NONCE_BYTES` bytes; see `issue_with`.
    pub fn issue(&mut self, keys: &AdminKeyStore, public_key_b64: &str) -> (r: Result<String, AuthError>)
        requires
            old(self).wf(),
            keys.wf(),
        ensures
            final(self).wf(),
            exists|now: u64, nonce_bytes: Seq<u8>|
                nonce_bytes.len() == NONCE_BYTES && (final(self)@, result_view(r))
                    == #[trigger] issue_outcome(old(self)@, keys@, public_key_b64@, now, nonce_bytes),
    {
        let now = now_secs();
        let nonce_bytes = random_bytes(NONCE_BYTES);
        self.issue_with(keys, public_key_b64, now, nonce_bytes.as_slice())
    }

    /// Checks a response at time `now`: the key, the nonce it signed, and
    /// the detached 64-byte signature in base64 (over the nonce's UTF-8
    /// bytes). Expired
    /// challenges are swept first, so an expired nonce is no longer found.
    /// A nonce bound to another key is answered as if it did not exist and
    /// is kept; one bound to this key is consumed, whatever the signature.
    /// On success the key's fingerprint is returned.
    pub fn verify_at(
        &mut self,
        keys: &AdminKeyStore,
        public_key_b64: &str,
        nonce: &str,
        signature_b64: &str,
        now: u64,
    ) -> (r: Result<String, AuthError>)
        requires
            old(self).wf(),
            keys.wf(),
        ensures
            final(self).wf(),
            (final(self)@, result_view(r)) == verify_outcome(
                old(self)@,
                keys@,
                public_key_b64@,
                nonce@,
                nonce.spec_bytes(),
                signature_b64@,
                now,
            ),
    {
        let (public_key, record) = match Self::check_presented_key(keys, public_key_b64) {
            Ok(found) => found,
            Err(e) => {
                return Err(e);
            },
        };
        self.sweep(now);
        let nonce_key = nonce.to_owned();
        let challenge = match self.pending.get(&nonce_key) {
            Some(c) => c.copy_of(),
            None => {
                return Err(AuthError::NoSuchChallenge);
            },
        };
        if challenge.fingerprint != record.fingerprint {
            return Err(AuthError::NoSuchChallenge);
        }
        if challenge.expires_at <= now {
            self.pending.remove(&nonce_key);
            return Err(AuthError::ChallengeExpired);
        }
        self.pending.remove(&nonce_key);
        let signature = match base64_decode(signature_b64) {
            Some(s) => s,
            None => {
                return Err(AuthError::InvalidSignature);
            },
        };
        if signature.len() != SIGNATURE_BYTES {
            return Err(AuthError::InvalidSignature);
        }
        let signed_message = concat_bytes(signature.as_slice(), nonce.as_bytes());
        match ed25519_verify(signed_message.as_slice(), &public_key) {
            Some(_) => Ok(record.fingerprint),
            None => Err(AuthError::InvalidSignature),
        }
    }

    /// Checks a response at the current time; see `verify_at`.
    pub fn verify(
        &mut self,
        keys: &AdminKeyStore,
        public_key_b64: &str,
        nonce: &str,
        signature_b64: &str,
    ) -> (r: Result<String, AuthError>)
        requires
            old(self).wf(),
            keys.wf(),
        ensures
            final(self).wf(),
            exists|now: u64|
                (final(self)@, result_view(r)) == #[trigger] verify_outcome(
                    old(self)@,
                    keys@,
                    public_key_b64@,
                    nonce@,
                    nonce.spec_bytes(),
                    signature_b64@,
                    now,
                ),
    {
        let now = now_secs();
        self.verify_at(keys, public_key_b64, nonce, signature_b64, now)
    }
}

/// `a` followed by `b`.
fn concat_bytes(a: &[u8], b: &[u8]) -> (out: Vec<u8>)
    ensures
        out@ == a@ + b@,
{
    let mut out: Vec<u8> = Vec::new();
    let mut i: usize = 0;
    while i < a.len()
        invariant
            i <= a@.len(),
            out@ == a@.subrange(0, i as int),
        decreases a@.len() - i,
    {
        out.push(a[i]);
        i = i + 1;
        assert(out@ =~= a@.subrange(0, i as int));
    }
    let mut j: usize = 0;
    while j < b.len()
        invariant
            j <= b@.len(),
            i == a@.len(),
            out@ == a@ + b@.subrange(0, j as int),
        decreases b@.len() - j,
    {
        out.push(b[j]);
        j = j + 1;
        assert(out@ =~= a@ + b@.subrange(0, j as int));
    }
    assert(a@.subrange(0, a@.len() as int) =~= a@);
    assert(b@.subrange(0, b@.len() as int) =~= b@);
    out
}

} // verus!
