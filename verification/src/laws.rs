//! Properties of the authorized-key store and of the challenge-response
//! exchange that hold across calls.

use vstd::prelude::*;
use crate::auth::{
    expiry_of, issue_outcome, live_challenges, presented_key, verify_outcome, AuthError,
    PendingChallenge,
};
use crate::crypto::{base64_bytes, ed25519_open};
use crate::hex::lower_hex;
use crate::keys::{active_record, is_sorted_listing, key_fingerprint, records_map, AuthorizedKey};
use crate::crypto::is_bcrypt_hash_char;
use crate::env_file::{
    assigns_key, assignment, eq_index, first_assignment, has_eq, is_comment, is_first_assignment,
    is_first_eq, lemma_read_lines_have_no_newline, lemma_read_written_lines, line_key, line_value,
    merged_lines, sets_token_hash, strip_cr, text_lines, with_env_var, JWT_SECRET_KEY,
    TOKEN_HASH_KEY,
};
use crate::setup::{admin_env_outcome, InitAdminError};
use crate::text::{
    ascii_lower, eq_ignore_ascii_case, is_ws, lemma_leading_ws_is, lemma_trailing_ws_is, trim,
    trim_start,
};

verus! {

/// A nonce answered by the key it was issued to, successfully or with a bad
/// signature, is consumed: any later answer with it, at any time and with
/// any signature, finds no such challenge.
pub proof fn law_nonce_single_use(
    pending: Map<Seq<char>, PendingChallenge>,
    keys: Map<Seq<char>, AuthorizedKey>,
    public_key_b64: Seq<char>,
    nonce: Seq<char>,
    nonce_bytes: Seq<u8>,
    signature_b64: Seq<char>,
    now: u64,
    signature_b64_again: Seq<char>,
    later: u64,
)
    requires
        ({
            let r = verify_outcome(pending, keys, public_key_b64, nonce, nonce_bytes, signature_b64, now).1;
            r is Ok || r == Err::<Seq<char>, AuthError>(AuthError::InvalidSignature)
        }),
    ensures
        verify_outcome(
            verify_outcome(pending, keys, public_key_b64, nonce, nonce_bytes, signature_b64, now).0,
            keys,
            public_key_b64,
            nonce,
            nonce_bytes,
            signature_b64_again,
            later,
        ).1 == Err::<Seq<char>, AuthError>(AuthError::NoSuchChallenge),
{
    let after = verify_outcome(pending, keys, public_key_b64, nonce, nonce_bytes, signature_b64, now).0;
    assert(!after.contains_key(nonce));
    assert(!live_challenges(after, later).contains_key(nonce));
}

/// A nonce issued to one key cannot be answered by another authorized key
/// (of another fingerprint): it is answered as if it did not exist, and the
/// challenge stays outstanding for its own key.
pub proof fn law_nonce_bound_to_key(
    pending: Map<Seq<char>, PendingChallenge>,
    keys: Map<Seq<char>, AuthorizedKey>,
    owner_b64: Seq<char>,
    other_b64: Seq<char>,
    now: u64,
    random: Seq<u8>,
    nonce_bytes: Seq<u8>,
    signature_b64: Seq<char>,
    later: u64,
)
    requires
        match (presented_key(keys, owner_b64), presented_key(keys, other_b64)) {
            (Ok((_, a)), Ok((_, b))) => a.fingerprint@ != b.fingerprint@,
            _ => false,
        },
    ensures
        ({
            let (issued, nonce) = issue_outcome(pending, keys, owner_b64, now, random);
            &&& nonce is Ok
            &&& verify_outcome(issued, keys, other_b64, nonce->Ok_0, nonce_bytes, signature_b64, later)
                == (live_challenges(issued, later), Err::<Seq<char>, AuthError>(AuthError::NoSuchChallenge))
        }),
{
}

/// A challenge answered at or after its expiry (`CHALLENGE_TTL_SECS` after
/// it was issued) is no longer found, whatever the signature.
pub proof fn law_challenge_expires(
    pending: Map<Seq<char>, PendingChallenge>,
    keys: Map<Seq<char>, AuthorizedKey>,
    public_key_b64: Seq<char>,
    now: u64,
    random: Seq<u8>,
    nonce_bytes: Seq<u8>,
    signature_b64: Seq<char>,
    later: u64,
)
    requires
        presented_key(keys, public_key_b64) is Ok,
        later >= expiry_of(now),
    ensures
        ({
            let (issued, nonce) = issue_outcome(pending, keys, public_key_b64, now, random);
            verify_outcome(issued, keys, public_key_b64, nonce->Ok_0, nonce_bytes, signature_b64, later).1
                == Err::<Seq<char>, AuthError>(AuthError::NoSuchChallenge)
        }),
{
    let (issued, nonce) = issue_outcome(pending, keys, public_key_b64, now, random);
    assert(!live_challenges(issued, later).contains_key(nonce->Ok_0));
}

/// An active key that answers its own unexpired challenge with a detached
/// (64-byte) signature that verifies over the nonce is accepted, and its
/// fingerprint returned.
pub proof fn law_issue_then_verify(
    pending: Map<Seq<char>, PendingChallenge>,
    keys: Map<Seq<char>, AuthorizedKey>,
    public_key_b64: Seq<char>,
    now: u64,
    random: Seq<u8>,
    nonce_bytes: Seq<u8>,
    signature_b64: Seq<char>,
    later: u64,
)
    requires
        presented_key(keys, public_key_b64) is Ok,
        later < expiry_of(now),
        base64_bytes(signature_b64) is Some,
        base64_bytes(signature_b64)->Some_0.len() == 64,
        ed25519_open(
            base64_bytes(signature_b64)->Some_0 + nonce_bytes,
            (presented_key(keys, public_key_b64)->Ok_0).0,
        ) is Some,
    ensures
        ({
            let (issued, nonce) = issue_outcome(pending, keys, public_key_b64, now, random);
            &&& nonce == Ok::<Seq<char>, AuthError>(lower_hex(random))
            &&& verify_outcome(issued, keys, public_key_b64, nonce->Ok_0, nonce_bytes, signature_b64, later).1
                == Ok::<Seq<char>, AuthError>((presented_key(keys, public_key_b64)->Ok_0).1.fingerprint@)
        }),
{
    let (issued, nonce) = issue_outcome(pending, keys, public_key_b64, now, random);
    assert(live_challenges(issued, later).contains_key(nonce->Ok_0));
}

/// A response is never refused as expired: an expired nonce has been swept
/// before it is looked up, and is reported as not found.
pub proof fn law_no_expired_error(
    pending: Map<Seq<char>, PendingChallenge>,
    keys: Map<Seq<char>, AuthorizedKey>,
    public_key_b64: Seq<char>,
    nonce: Seq<char>,
    nonce_bytes: Seq<u8>,
    signature_b64: Seq<char>,
    now: u64,
)
    ensures
        verify_outcome(pending, keys, public_key_b64, nonce, nonce_bytes, signature_b64, now).1
            != Err::<Seq<char>, AuthError>(AuthError::ChallengeExpired),
{
}

/// A malformed, unknown or revoked key changes no outstanding challenge,
/// whether it asks for a challenge or answers one.
pub proof fn law_refused_key_changes_nothing(
    pending: Map<Seq<char>, PendingChallenge>,
    keys: Map<Seq<char>, AuthorizedKey>,
    public_key_b64: Seq<char>,
    now: u64,
    random: Seq<u8>,
    nonce: Seq<char>,
    nonce_bytes: Seq<u8>,
    signature_b64: Seq<char>,
)
    requires
        presented_key(keys, public_key_b64) is Err,
    ensures
        issue_outcome(pending, keys, public_key_b64, now, random) == (
            pending,
            Err::<Seq<char>, AuthError>(presented_key(keys, public_key_b64)->Err_0),
        ),
        verify_outcome(pending, keys, public_key_b64, nonce, nonce_bytes, signature_b64, now) == (
            pending,
            Err::<Seq<char>, AuthError>(presented_key(keys, public_key_b64)->Err_0),
        ),
{
}

/// A key just added (under its fingerprint, not revoked) is found active
/// by its raw public key, with the record that was added.
pub proof fn law_added_key_is_active(
    keys: Map<Seq<char>, AuthorizedKey>,
    public_key: Seq<u8>,
    record: AuthorizedKey,
)
    requires
        record.fingerprint@ == key_fingerprint(public_key),
        !record.revoked,
    ensures
        active_record(keys.insert(record.fingerprint@, record), public_key) == Some(record),
{
}

/// Revoking a key keeps its record (soft delete) but makes it inactive, and
/// revoking it again finds nothing to do.
pub proof fn law_revoke_is_soft_and_final(
    keys: Map<Seq<char>, AuthorizedKey>,
    public_key: Seq<u8>,
)
    requires
        keys.contains_key(key_fingerprint(public_key)),
    ensures
        ({
            let fp = key_fingerprint(public_key);
            let revoked = keys.insert(fp, AuthorizedKey { revoked: true, ..keys[fp] });
            &&& revoked.contains_key(fp)
            &&& revoked.dom() == keys.dom()
            &&& active_record(revoked, public_key) is None
            &&& !(revoked.contains_key(fp) && !revoked[fp].revoked)
        }),
{
    let fp = key_fingerprint(public_key);
    let revoked = keys.insert(fp, AuthorizedKey { revoked: true, ..keys[fp] });
    assert(revoked.dom() =~= keys.dom());
}

/// A revoked key can no longer get a challenge, presented in base64 exactly
/// as it was enrolled; the challenges stay as they were.
pub proof fn law_revoked_key_gets_no_challenge(
    pending: Map<Seq<char>, PendingChallenge>,
    keys: Map<Seq<char>, AuthorizedKey>,
    public_key: Seq<u8>,
    public_key_b64: Seq<char>,
    now: u64,
    random: Seq<u8>,
)
    requires
        keys.contains_key(key_fingerprint(public_key)),
        public_key.len() == 32,
        base64_bytes(public_key_b64) == Some(public_key),
    ensures
        ({
            let fp = key_fingerprint(public_key);
            let revoked = keys.insert(fp, AuthorizedKey { revoked: true, ..keys[fp] });
            issue_outcome(pending, revoked, public_key_b64, now, random) == (
                pending,
                Err::<Seq<char>, AuthError>(AuthError::UnknownOrRevokedKey),
            )
        }),
{
}

/// An enrolled, not revoked key presented in base64 gets a challenge whose
/// nonce is the hex of the random bytes, bound to its fingerprint.
pub proof fn law_enrolled_key_gets_challenge(
    pending: Map<Seq<char>, PendingChallenge>,
    keys: Map<Seq<char>, AuthorizedKey>,
    public_key: Seq<u8>,
    public_key_b64: Seq<char>,
    record: AuthorizedKey,
    now: u64,
    random: Seq<u8>,
)
    requires
        record.fingerprint@ == key_fingerprint(public_key),
        !record.revoked,
        public_key.len() == 32,
        base64_bytes(public_key_b64) == Some(public_key),
    ensures
        ({
            let enrolled = keys.insert(record.fingerprint@, record);
            let (issued, nonce) = issue_outcome(pending, enrolled, public_key_b64, now, random);
            &&& nonce == Ok::<Seq<char>, AuthError>(lower_hex(random))
            &&& issued.contains_key(lower_hex(random))
            &&& issued[lower_hex(random)].fingerprint@ == key_fingerprint(public_key)
            &&& issued[lower_hex(random)].expires_at == expiry_of(now)
        }),
{
}

/// Facts of the line `ADMIN_API_TOKEN_HASH=<hash>` for a hash of bcrypt's
/// characters: it holds no line break, sets the token hash to a value that
/// is not blank, and does not set the JWT secret.
proof fn lemma_token_hash_line(hash: Seq<char>)
    requires
        hash.len() > 0,
        forall|i: int| 0 <= i < hash.len() ==> is_bcrypt_hash_char(#[trigger] hash[i]),
    ensures
        !assignment(TOKEN_HASH_KEY@, hash).contains('\n'),
        strip_cr(assignment(TOKEN_HASH_KEY@, hash)) == assignment(TOKEN_HASH_KEY@, hash),
        assigns_key(assignment(TOKEN_HASH_KEY@, hash), TOKEN_HASH_KEY@),
        trim(line_value(assignment(TOKEN_HASH_KEY@, hash))).len() > 0,
        !assigns_key(assignment(TOKEN_HASH_KEY@, hash), JWT_SECRET_KEY@),
{
    reveal_strlit("ADMIN_API_TOKEN_HASH");
    reveal_strlit("ADMIN_API_JWT_SECRET");
    let k1 = TOKEN_HASH_KEY@;
    let k2 = JWT_SECRET_KEY@;
    let hl = assignment(k1, hash);
    assert(k1.len() == 20);
    assert(hl.len() == 21 + hash.len());
    assert forall|i: int| 0 <= i < hl.len() implies hl[i] != '\n' by {
        if i >= 21 {
            assert(hl[i] == hash[i - 21]);
            assert(is_bcrypt_hash_char(hash[i - 21]));
        } else if i < 20 {
            assert(hl[i] == k1[i]);
        }
    }
    assert(hl.last() == hash.last());
    assert(is_bcrypt_hash_char(hash[hash.len() - 1]));
    // Not a comment: the line starts with `A`.
    assert(hl[0] == 'A');
    lemma_leading_ws_is(hl, 0);
    assert(trim_start(hl) =~= hl);
    assert(!is_comment(hl));
    // The first `=` follows the key.
    assert forall|j: int| 0 <= j < 20 implies hl[j] != '=' by {
        assert(hl[j] == k1[j]);
    }
    assert(is_first_eq(hl, 20));
    assert(has_eq(hl));
    let c = eq_index(hl);
    assert(is_first_eq(hl, c));
    if c < 20 {
        assert(hl[c] == k1[c]);
    } else if c > 20 {
        assert(hl[20] == '=');
    }
    assert(c == 20);
    // The key part is exactly the key.
    assert(hl.take(20) =~= k1);
    lemma_leading_ws_is(k1, 0);
    assert(k1[19] == 'H');
    lemma_trailing_ws_is(k1.skip(0), 0);
    assert(k1.skip(0) =~= k1);
    assert(trim(k1) =~= k1);
    assert(line_key(hl) == k1);
    assert(eq_ignore_ascii_case(k1, k1));
    // The value is the hash, which has no blank at either end.
    assert(line_value(hl) =~= hash);
    assert(is_bcrypt_hash_char(hash[0]));
    lemma_leading_ws_is(hash, 0);
    assert(hash.skip(0) =~= hash);
    lemma_trailing_ws_is(hash, 0);
    assert(trim(hash) =~= hash);
    // The key differs from the JWT secret's key at its eleventh character.
    assert(k1[10] == 'T' && k2[10] == 'J');
    assert(ascii_lower(k1[10]) != ascii_lower(k2[10]));
    assert(!eq_ignore_ascii_case(k1, k2));
}

/// The position at which `merged_lines` puts `key=value`.
proof fn lemma_merged_position(ls: Seq<Seq<char>>, key: Seq<char>, value: Seq<char>) -> (j: int)
    ensures
        0 <= j < merged_lines(ls, key, value).len(),
        merged_lines(ls, key, value)[j] == assignment(key, value),
        forall|i: int| 0 <= i < merged_lines(ls, key, value).len() && i != j ==> i < ls.len() && #[trigger] merged_lines(ls, key, value)[i] == ls[i],
        merged_lines(ls, key, value).len() >= ls.len(),
        j < ls.len() ==> assigns_key(ls[j], key),
{
    match first_assignment(ls, key) {
        Some(f) => {
            assert(is_first_assignment(ls, key, f));
            f
        },
        None => ls.len() as int,
    }
}

/// Once the admin settings are written (the token hash, then the JWT
/// secret), the text sets a token hash: a second set-up without `force` is
/// refused.
pub proof fn law_admin_env_holds_token_hash(existing: Seq<char>, hash: Seq<char>, secret: Seq<char>)
    requires
        hash.len() > 0,
        forall|i: int| 0 <= i < hash.len() ==> is_bcrypt_hash_char(#[trigger] hash[i]),
        !secret.contains('\n'),
    ensures
        sets_token_hash(with_env_var(with_env_var(existing, TOKEN_HASH_KEY@, hash), JWT_SECRET_KEY@, secret)),
{
    reveal_strlit("ADMIN_API_JWT_SECRET");
    let k1 = TOKEN_HASH_KEY@;
    let k2 = JWT_SECRET_KEY@;
    let hl = assignment(k1, hash);
    lemma_token_hash_line(hash);
    let ls0 = text_lines(existing);
    lemma_read_lines_have_no_newline(existing);
    let m1 = merged_lines(ls0, k1, hash);
    let j = lemma_merged_position(ls0, k1, hash);
    assert forall|i: int| 0 <= i < m1.len() implies !(#[trigger] m1[i]).contains('\n') by {
        if i != j {
            assert(m1[i] == ls0[i]);
        }
    }
    lemma_read_written_lines(m1);
    let l1 = text_lines(with_env_var(existing, k1, hash));
    assert(l1 == m1.map_values(|l: Seq<char>| strip_cr(l)));
    assert(l1[j] == hl);
    let jl = assignment(k2, secret);
    assert(!jl.contains('\n')) by {
        if jl.contains('\n') {
            let i = choose|i: int| 0 <= i < jl.len() && jl[i] == '\n';
            if i < 20 {
                assert(jl[i] == k2[i]);
            } else if i > 20 {
                assert(jl[i] == secret[i - 21]);
            }
        }
    }
    assert forall|i: int| 0 <= i < l1.len() implies !(#[trigger] l1[i]).contains('\n') by {
        assert(l1[i] == strip_cr(m1[i]));
        assert(!m1[i].contains('\n'));
        if strip_cr(m1[i]).contains('\n') {
            let c = choose|c: int| 0 <= c < strip_cr(m1[i]).len() && strip_cr(m1[i])[c] == '\n';
            assert(m1[i][c] == '\n');
        }
    }
    let m2 = merged_lines(l1, k2, secret);
    let j2 = lemma_merged_position(l1, k2, secret);
    assert(j < l1.len());
    if j2 == j {
        assert(assigns_key(l1[j], k2));
        assert(false);
    }
    assert(m2[j] == hl);
    assert forall|i: int| 0 <= i < m2.len() implies !(#[trigger] m2[i]).contains('\n') by {
        if i != j2 {
            assert(m2[i] == l1[i]);
        }
    }
    lemma_read_written_lines(m2);
    let fin = with_env_var(with_env_var(existing, k1, hash), k2, secret);
    assert(text_lines(fin) == m2.map_values(|l: Seq<char>| strip_cr(l)));
    assert(text_lines(fin)[j] == hl);
    assert(assigns_key(text_lines(fin)[j], k1) && trim(line_value(text_lines(fin)[j])).len() > 0);
}

/// The map of records with pairwise distinct fingerprints holds each of them
/// under its fingerprint, and nothing else.
proof fn lemma_records_map_distinct(s: Seq<AuthorizedKey>)
    requires
        forall|i: int, j: int|
            0 <= i < s.len() && 0 <= j < s.len() && i != j ==> (#[trigger] s[i]).fingerprint@
                != (#[trigger] s[j]).fingerprint@,
    ensures
        forall|k: Seq<char>| #[trigger]
            records_map(s).contains_key(k) <==> exists|i: int| 0 <= i < s.len() && (#[trigger] s[i]).fingerprint@ == k,
        forall|i: int| 0 <= i < s.len() ==> records_map(s)[(#[trigger] s[i]).fingerprint@] == s[i],
    decreases s.len(),
{
    if s.len() > 0 {
        let front = s.drop_last();
        assert forall|i: int, j: int|
            0 <= i < front.len() && 0 <= j < front.len() && i != j implies (#[trigger] front[i]).fingerprint@
            != (#[trigger] front[j]).fingerprint@ by {
            assert(front[i] == s[i] && front[j] == s[j]);
        }
        lemma_records_map_distinct(front);
        assert forall|k: Seq<char>| #[trigger]
            records_map(s).contains_key(k) <==> exists|i: int| 0 <= i < s.len() && (#[trigger] s[i]).fingerprint@ == k by {
            if exists|i: int| 0 <= i < s.len() && (#[trigger] s[i]).fingerprint@ == k {
                let i = choose|i: int| 0 <= i < s.len() && (#[trigger] s[i]).fingerprint@ == k;
                if i < s.len() - 1 {
                    assert(front[i] == s[i]);
                }
            }
            if records_map(front).contains_key(k) {
                let i = choose|i: int| 0 <= i < front.len() && (#[trigger] front[i]).fingerprint@ == k;
                assert(s[i] == front[i]);
            }
            assert(s[s.len() - 1] == s.last());
        }
        assert forall|i: int| 0 <= i < s.len() implies records_map(s)[(#[trigger] s[i]).fingerprint@] == s[i] by {
            if i < s.len() - 1 {
                assert(front[i] == s[i]);
                assert(s[i].fingerprint@ != s[s.len() - 1].fingerprint@);
            }
        }
    }
}

/// Writing a store out as its listing and reading the listing back gives
/// the same store.
pub proof fn law_reload_restores_store(keys: Map<Seq<char>, AuthorizedKey>, listing: Seq<AuthorizedKey>)
    requires
        forall|k: Seq<char>| #[trigger] keys.contains_key(k) ==> keys[k].fingerprint@ == k,
        is_sorted_listing(keys, listing),
    ensures
        records_map(listing) == keys,
{
    lemma_records_map_distinct(listing);
    assert forall|k: Seq<char>| #[trigger] records_map(listing).contains_key(k) <==> keys.contains_key(k) by {
        if records_map(listing).contains_key(k) {
            let i = choose|i: int| 0 <= i < listing.len() && (#[trigger] listing[i]).fingerprint@ == k;
        }
    }
    assert forall|k: Seq<char>| #[trigger] keys.contains_key(k) implies records_map(listing)[k] == keys[k] by {
        let i = choose|i: int| 0 <= i < listing.len() && (#[trigger] listing[i]).fingerprint@ == k;
    }
    assert(records_map(listing) =~= keys);
}

/// A revoked key is answered exactly as a key that was never enrolled, so
/// a challenge request cannot tell which keys are registered.
pub proof fn law_revoked_answers_as_unknown(
    pending: Map<Seq<char>, PendingChallenge>,
    keys: Map<Seq<char>, AuthorizedKey>,
    public_key: Seq<u8>,
    public_key_b64: Seq<char>,
    now: u64,
    random: Seq<u8>,
)
    requires
        keys.contains_key(key_fingerprint(public_key)),
        keys[key_fingerprint(public_key)].revoked,
        public_key.len() == 32,
        base64_bytes(public_key_b64) == Some(public_key),
    ensures
        issue_outcome(pending, keys, public_key_b64, now, random) == issue_outcome(
            pending,
            keys.remove(key_fingerprint(public_key)),
            public_key_b64,
            now,
            random,
        ),
{
}

/// Issuing and answering challenges sweep the expired ones: afterwards
/// every outstanding challenge, but the one just issued, is still valid at
/// that time, so challenges requested and never answered do not pile up.
pub proof fn law_sweep_keeps_only_live_challenges(
    pending: Map<Seq<char>, PendingChallenge>,
    keys: Map<Seq<char>, AuthorizedKey>,
    public_key_b64: Seq<char>,
    now: u64,
    random: Seq<u8>,
    nonce: Seq<char>,
    nonce_bytes: Seq<u8>,
    signature_b64: Seq<char>,
)
    requires
        presented_key(keys, public_key_b64) is Ok,
    ensures
        ({
            let issued = issue_outcome(pending, keys, public_key_b64, now, random).0;
            forall|k: Seq<char>| #[trigger]
                issued.contains_key(k) && k != lower_hex(random) ==> issued[k].expires_at > now
        }),
        ({
            let answered = verify_outcome(pending, keys, public_key_b64, nonce, nonce_bytes, signature_b64, now).0;
            forall|k: Seq<char>| #[trigger] answered.contains_key(k) ==> answered[k].expires_at > now
        }),
{
}

/// Issuing a challenge keeps every other outstanding challenge that is still
/// valid at that time, unchanged, and drops only the expired ones: for any
/// nonce but the new one, it is outstanding afterwards exactly when it was
/// outstanding before and expires after `now`.
pub proof fn law_issue_keeps_other_live_challenges(
    pending: Map<Seq<char>, PendingChallenge>,
    keys: Map<Seq<char>, AuthorizedKey>,
    public_key_b64: Seq<char>,
    now: u64,
    random: Seq<u8>,
    other: Seq<char>,
)
    requires
        presented_key(keys, public_key_b64) is Ok,
        other != lower_hex(random),
    ensures
        ({
            let issued = issue_outcome(pending, keys, public_key_b64, now, random).0;
            &&& issued.contains_key(other) == (pending.contains_key(other) && pending[other].expires_at > now)
            &&& issued.contains_key(other) ==> issued[other] == pending[other]
        }),
{
}

/// A challenge issued to one key survives a challenge issued later to
/// another key (with another nonce) while it is unexpired, and is then
/// accepted from its own key with a detached signature that verifies over
/// the nonce, before it expires.
pub proof fn law_challenge_survives_other_issue(
    pending: Map<Seq<char>, PendingChallenge>,
    keys: Map<Seq<char>, AuthorizedKey>,
    first_b64: Seq<char>,
    first_at: u64,
    first_random: Seq<u8>,
    second_b64: Seq<char>,
    second_at: u64,
    second_random: Seq<u8>,
    nonce_bytes: Seq<u8>,
    signature_b64: Seq<char>,
    answered_at: u64,
)
    requires
        presented_key(keys, first_b64) is Ok,
        presented_key(keys, second_b64) is Ok,
        lower_hex(first_random) != lower_hex(second_random),
        second_at < expiry_of(first_at),
        answered_at < expiry_of(first_at),
        base64_bytes(signature_b64) is Some,
        base64_bytes(signature_b64)->Some_0.len() == 64,
        ed25519_open(
            base64_bytes(signature_b64)->Some_0 + nonce_bytes,
            (presented_key(keys, first_b64)->Ok_0).0,
        ) is Some,
    ensures
        ({
            let (after_first, first_nonce) = issue_outcome(pending, keys, first_b64, first_at, first_random);
            let after_second = issue_outcome(after_first, keys, second_b64, second_at, second_random).0;
            &&& first_nonce == Ok::<Seq<char>, AuthError>(lower_hex(first_random))
            &&& verify_outcome(
                after_second,
                keys,
                first_b64,
                lower_hex(first_random),
                nonce_bytes,
                signature_b64,
                answered_at,
            ).1 == Ok::<Seq<char>, AuthError>((presented_key(keys, first_b64)->Ok_0).1.fingerprint@)
        }),
{
    let n = lower_hex(first_random);
    let after_first = issue_outcome(pending, keys, first_b64, first_at, first_random).0;
    let after_second = issue_outcome(after_first, keys, second_b64, second_at, second_random).0;
    assert(after_first.contains_key(n));
    assert(live_challenges(after_first, second_at).contains_key(n));
    assert(after_second.contains_key(n));
    assert(after_second[n] == after_first[n]);
    assert(live_challenges(after_second, answered_at).contains_key(n));
}

/// Setting up the admin settings is refused as already configured exactly
/// when a token hash is set and `force` is not given. Otherwise it fails
/// only where the token could not be hashed, and with a hash it gives the
/// text with the hash and then the JWT secret set. An empty `.env` text
/// (a file not written yet) sets no token hash, so it is never refused.
pub proof fn law_admin_setup_fails_only_without_hash(
    existing: Seq<char>,
    force: bool,
    token_hash: Option<Seq<char>>,
    jwt_secret: Seq<char>,
)
    ensures
        !sets_token_hash(Seq::<char>::empty()),
        (admin_env_outcome(existing, force, token_hash, jwt_secret) == Err::<Seq<char>, InitAdminError>(
            InitAdminError::AlreadyConfigured,
        )) == (!force && sets_token_hash(existing)),
        (admin_env_outcome(existing, force, token_hash, jwt_secret) == Err::<Seq<char>, InitAdminError>(
            InitAdminError::HashFailed,
        )) == ((force || !sets_token_hash(existing)) && token_hash is None),
        token_hash matches Some(h) ==> ((force || !sets_token_hash(existing)) ==> admin_env_outcome(
            existing,
            force,
            token_hash,
            jwt_secret,
        ) == Ok::<Seq<char>, InitAdminError>(
            with_env_var(with_env_var(existing, TOKEN_HASH_KEY@, h), JWT_SECRET_KEY@, jwt_secret),
        )),
{
    assert(text_lines(Seq::<char>::empty()).len() == 0);
}

} // verus!
