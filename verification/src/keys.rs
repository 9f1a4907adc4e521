//! The store of ed25519 public keys that may use the admin presence API,
//! keyed by a short fingerprint of each key. Revocation is a soft delete: the
//! record stays, marked revoked.

use vstd::prelude::*;
use crate::crypto::{base64_encode, base64_text, now_secs, sha256, sha256_of};
use crate::hex::{hex_prefix, lower_hex};
use crate::string_map::{seq_has_key, StringMap};

verus! {

/// File name of the key store, relative to the server's working directory,
/// used when no other path is configured.
pub const DEFAULT_KEYS_FILE: &'static str = "admin_authorized_keys.json";

/// One public key that may use the admin presence API.
#[derive(Debug)]
pub struct AuthorizedKey {
    /// Lowercase hex of the first 16 bytes of the key's SHA-256 digest.
    pub fingerprint: String,
    /// Base64 of the raw 32-byte ed25519 public key.
    pub public_key: String,
    /// Administrator-assigned description.
    pub label: String,
    /// Unix time (seconds) at which the key was added.
    pub added_at: u64,
    /// Unix time (seconds) of the last successful authentication.
    pub last_used_at: Option<u64>,
    /// Revoked keys stay listed but are never accepted.
    pub revoked: bool,
}

impl Clone for AuthorizedKey {
    fn clone(&self) -> (r: Self)
        ensures
            r == *self,
    {
        AuthorizedKey {
            fingerprint: self.fingerprint.clone(),
            public_key: self.public_key.clone(),
            label: self.label.clone(),
            added_at: self.added_at,
            last_used_at: self.last_used_at,
            revoked: self.revoked,
        }
    }
}

/// Why a key could not be added.
#[derive(Debug)]
pub enum KeyStoreError {
    /// A record, revoked or not, already exists for this fingerprint.
    AlreadyExists { fingerprint: String },
}

/// The fingerprint of a raw public key: lowercase hex of the first 16 bytes
/// of its SHA-256 digest (32 characters).
pub open spec fn key_fingerprint(public_key: Seq<u8>) -> Seq<char> {
    lower_hex(sha256_of(public_key).subrange(0, 16))
}

/// The map that a sequence of records gives when each is inserted in turn
/// under its fingerprint (a later record replaces an earlier one).
pub open spec fn records_map(records: Seq<AuthorizedKey>) -> Map<Seq<char>, AuthorizedKey>
    decreases records.len(),
{
    if records.len() == 0 {
        Map::empty()
    } else {
        records_map(records.drop_last()).insert(records.last().fingerprint@, records.last())
    }
}

/// `listing` holds every record of `m` exactly once, ordered by `added_at`.
pub open spec fn is_sorted_listing(m: Map<Seq<char>, AuthorizedKey>, listing: Seq<AuthorizedKey>) -> bool {
    &&& forall|i: int, j: int|
        0 <= i < j < listing.len() ==> (#[trigger] listing[i]).added_at <= (#[trigger] listing[j]).added_at
    &&& forall|i: int, j: int|
        0 <= i < listing.len() && 0 <= j < listing.len() && i != j ==> (#[trigger] listing[i]).fingerprint@
            != (#[trigger] listing[j]).fingerprint@
    &&& forall|i: int|
        0 <= i < listing.len() ==> m.contains_key((#[trigger] listing[i]).fingerprint@) && m[listing[i].fingerprint@]
            == listing[i]
    &&& forall|k: Seq<char>|
        #[trigger] m.contains_key(k) ==> exists|i: int| 0 <= i < listing.len() && (#[trigger] listing[i]).fingerprint@ == k
}

/// The active record for a public key: present under the key's fingerprint
/// and not revoked.
pub open spec fn active_record(m: Map<Seq<char>, AuthorizedKey>, public_key: Seq<u8>) -> Option<AuthorizedKey> {
    let fp = key_fingerprint(public_key);
    if m.contains_key(fp) && !m[fp].revoked {
        Some(m[fp])
    } else {
        None
    }
}

/// Derives the fingerprint of raw public key bytes; not secret, used to
/// reference a key without showing it.
pub fn fingerprint_of(pk_bytes: &[u8]) -> (fp: String)
    ensures
        fp@ == key_fingerprint(pk_bytes@),
        fp@.len() == 32,
{
    let digest = sha256(pk_bytes);
    proof {
        vstd::array::array_len_matches_n(&digest);
    }
    hex_prefix(digest.as_slice(), 16)
}

/// The authorized-key store: the records keyed by fingerprint, the path of
/// the file that holds them, and the modification time of the file when the
/// records were last read from it.
pub struct AdminKeyStore {
    path: String,
    keys: StringMap<AuthorizedKey>,
    loaded_mtime: Option<u64>,
}

impl View for AdminKeyStore {
    type V = Map<Seq<char>, AuthorizedKey>;

    closed spec fn view(&self) -> Map<Seq<char>, AuthorizedKey> {
        self.keys@
    }
}

impl AdminKeyStore {
    /// Each record is stored under its own fingerprint.
    pub closed spec fn wf(&self) -> bool {
        &&& self.keys.wf()
        &&& forall|k: Seq<char>| #[trigger] self@.contains_key(k) ==> self@[k].fingerprint@ == k
    }

    pub closed spec fn path_view(&self) -> Seq<char> {
        self.path@
    }

    /// The modification time of the file when the records were last read
    /// from it, if they were.
    pub closed spec fn loaded_mtime(&self) -> Option<u64> {
        self.loaded_mtime
    }

    /// In a well-formed store every record sits under its own fingerprint.
    pub proof fn lemma_fingerprints(&self)
        requires
            self.wf(),
        ensures
            forall|k: Seq<char>| #[trigger] self@.contains_key(k) ==> self@[k].fingerprint@ == k,
    {
    }

    /// The path of the store's file: `configured` (the `ADMIN_API_KEYS_FILE`
    /// setting) where there is one, else `DEFAULT_KEYS_FILE` in the working
    /// directory.
    pub fn resolve_default_path(configured: Option<String>) -> (path: String)
        ensures
            path@ == match configured {
                Some(p) => p@,
                None => DEFAULT_KEYS_FILE@,
            },
    {
        match configured {
            Some(p) => p,
            None => DEFAULT_KEYS_FILE.to_owned(),
        }
    }

    /// An empty store for `path`, as loaded when the file does not exist.
    pub fn empty(path: String) -> (store: Self)
        ensures
            store.wf(),
            store@ == Map::<Seq<char>, AuthorizedKey>::empty(),
            store.path_view() == path@,
            store.loaded_mtime() is None,
    {
        AdminKeyStore { path, keys: StringMap::new(), loaded_mtime: None }
    }

    /// A store holding the records read from the file at `path`, each under
    /// its fingerprint; where two share one, the later wins.
    pub fn from_records(path: String, records: Vec<AuthorizedKey>) -> (store: Self)
        ensures
            store.wf(),
            store@ == records_map(records@),
            store.path_view() == path@,
            store.loaded_mtime() is None,
    {
        let mut keys: StringMap<AuthorizedKey> = StringMap::new();
        let n = records.len();
        let mut i: usize = 0;
        while i < n
            invariant
                n == records@.len(),
                i <= n,
                keys.wf(),
                keys@ == records_map(records@.subrange(0, i as int)),
                forall|k: Seq<char>| #[trigger] keys@.contains_key(k) ==> keys@[k].fingerprint@ == k,
            decreases n - i,
        {
            let rec = records[i].clone();
            let fp = rec.fingerprint.clone();
            keys.insert(fp, rec);
            proof {
                let s = records@.subrange(0, i + 1);
                assert(s.drop_last() =~= records@.subrange(0, i as int));
                assert(s.last() == records@[i as int]);
            }
            i = i + 1;
        }
        assert(records@.subrange(0, n as int) =~= records@);
        AdminKeyStore { path, keys, loaded_mtime: None }
    }

    /// Whether the file, last modified at `disk_mtime` (`None` where it
    /// cannot be read), holds newer records than the store: it does when its
    /// time differs from the time at which the records were read.
    pub fn is_stale(&self, disk_mtime: Option<u64>) -> (stale: bool)
        ensures
            stale == match disk_mtime {
                Some(m) => self.loaded_mtime() != Some(m),
                None => false,
            },
    {
        match disk_mtime {
            Some(m) => match self.loaded_mtime {
                Some(loaded) => loaded != m,
                None => true,
            },
            None => false,
        }
    }

    /// Replaces the records by those read from the file, with the file's
    /// modification time, so that keys enrolled or revoked by another
    /// process take effect; `None` (nothing read) leaves the store as it is.
    pub fn refresh(&mut self, on_disk: Option<(Vec<AuthorizedKey>, u64)>)
        requires
            old(self).wf(),
        ensures
            final(self).wf(),
            final(self).path_view() == old(self).path_view(),
            match on_disk {
                Some((records, mtime)) => final(self)@ == records_map(records@)
                    && final(self).loaded_mtime() == Some(mtime),
                None => final(self)@ == old(self)@ && final(self).loaded_mtime()
                    == old(self).loaded_mtime(),
            },
    {
        match on_disk {
            Some((records, mtime)) => {
                let reloaded = Self::from_records(self.path.clone(), records);
                self.keys = reloaded.keys;
                self.loaded_mtime = Some(mtime);
            },
            None => {},
        }
    }

    /// The path of the file that holds the store.
    pub fn path(&self) -> (p: &String)
        ensures
            p@ == self.path_view(),
    {
        &self.path
    }

    /// Adds a new key at time `now`. A record that already exists for the
    /// key's fingerprint, revoked or not, is an error: a revoked key is not
    /// silently reactivated.
    pub fn add_at(&mut self, public_key: &[u8; 32], label: &str, now: u64) -> (r: Result<
        AuthorizedKey,
        KeyStoreError,
    >)
        requires
            old(self).wf(),
        ensures
            final(self).wf(),
            final(self).path_view() == old(self).path_view(),
            match r {
                Ok(rec) => {
                    &&& !old(self)@.contains_key(key_fingerprint(public_key@))
                    &&& rec.fingerprint@ == key_fingerprint(public_key@)
                    &&& rec.public_key@ == base64_text(public_key@)
                    &&& rec.label@ == label@
                    &&& rec.added_at == now
                    &&& rec.last_used_at is None
                    &&& !rec.revoked
                    &&& final(self)@ == old(self)@.insert(rec.fingerprint@, rec)
                },
                Err(KeyStoreError::AlreadyExists { fingerprint }) => {
                    &&& old(self)@.contains_key(key_fingerprint(public_key@))
                    &&& fingerprint@ == key_fingerprint(public_key@)
                    &&& final(self)@ == old(self)@
                },
            },
    {
        let fingerprint = fingerprint_of(public_key.as_slice());
        if self.keys.contains_key(&fingerprint) {
            return Err(KeyStoreError::AlreadyExists { fingerprint });
        }
        let record = AuthorizedKey {
            fingerprint: fingerprint.clone(),
            public_key: base64_encode(public_key.as_slice()),
            label: label.to_owned(),
            added_at: now,
            last_used_at: None,
            revoked: false,
        };
        self.keys.insert(fingerprint, record.clone());
        Ok(record)
    }

    /// Adds a new key, stamped with the current time; see `add_at`.
    pub fn add(&mut self, public_key: &[u8; 32], label: &str) -> (r: Result<AuthorizedKey, KeyStoreError>)
        requires
            old(self).wf(),
        ensures
            final(self).wf(),
            final(self).path_view() == old(self).path_view(),
            match r {
                Ok(rec) => {
                    &&& !old(self)@.contains_key(key_fingerprint(public_key@))
                    &&& rec.fingerprint@ == key_fingerprint(public_key@)
                    &&& rec.public_key@ == base64_text(public_key@)
                    &&& rec.label@ == label@
                    &&& rec.last_used_at is None
                    &&& !rec.revoked
                    &&& final(self)@ == old(self)@.insert(rec.fingerprint@, rec)
                },
                Err(KeyStoreError::AlreadyExists { fingerprint }) => {
                    &&& old(self)@.contains_key(key_fingerprint(public_key@))
                    &&& fingerprint@ == key_fingerprint(public_key@)
                    &&& final(self)@ == old(self)@
                },
            },
    {
        let now = now_secs();
        self.add_at(public_key, label, now)
    }

    /// Marks the key with this fingerprint revoked (the record is kept).
    /// Returns whether a matching, not yet revoked key was found; only then
    /// does the store change.
    pub fn revoke(&mut self, fingerprint: &str) -> (found: bool)
        requires
            old(self).wf(),
        ensures
            final(self).wf(),
            final(self).path_view() == old(self).path_view(),
            found == (old(self)@.contains_key(fingerprint@) && !old(self)@[fingerprint@].revoked),
            found ==> final(self)@ == old(self)@.insert(
                fingerprint@,
                (AuthorizedKey { revoked: true, ..old(self)@[fingerprint@] }),
            ),
            !found ==> final(self)@ == old(self)@,
    {
        let key = fingerprint.to_owned();
        let current = match self.keys.get(&key) {
            Some(k) => k.clone(),
            None => {
                return false;
            },
        };
        if current.revoked {
            return false;
        }
        let updated = AuthorizedKey { revoked: true, ..current };
        self.keys.insert(key, updated);
        true
    }

    /// Records a successful authentication with the key of this fingerprint
    /// at time `now`; an unknown fingerprint changes nothing.
    pub fn touch_last_used_at(&mut self, fingerprint: &str, now: u64)
        requires
            old(self).wf(),
        ensures
            final(self).wf(),
            final(self).path_view() == old(self).path_view(),
            old(self)@.contains_key(fingerprint@) ==> final(self)@ == old(self)@.insert(
                fingerprint@,
                (AuthorizedKey { last_used_at: Some(now), ..old(self)@[fingerprint@] }),
            ),
            !old(self)@.contains_key(fingerprint@) ==> final(self)@ == old(self)@,
    {
        let key = fingerprint.to_owned();
        let current = match self.keys.get(&key) {
            Some(k) => k.clone(),
            None => {
                return ;
            },
        };
        let updated = AuthorizedKey { last_used_at: Some(now), ..current };
        self.keys.insert(key, updated);
    }

    /// Records a successful authentication at the current time; see
    /// `touch_last_used_at`.
    pub fn touch_last_used(&mut self, fingerprint: &str)
        requires
            old(self).wf(),
        ensures
            final(self).wf(),
            final(self).path_view() == old(self).path_view(),
            old(self)@.contains_key(fingerprint@) ==> {
                &&& final(self)@[fingerprint@].last_used_at is Some
                &&& final(self)@ == old(self)@.insert(
                    fingerprint@,
                    (AuthorizedKey {
                        last_used_at: final(self)@[fingerprint@].last_used_at,
                        ..old(self)@[fingerprint@]
                    }),
                )
            },
            !old(self)@.contains_key(fingerprint@) ==> final(self)@ == old(self)@,
    {
        let now = now_secs();
        self.touch_last_used_at(fingerprint, now);
    }

    /// Looks up the non-revoked record of a raw public key; unknown and
    /// revoked keys both give `None`.
    pub fn find_active(&self, pk_bytes: &[u8]) -> (r: Option<AuthorizedKey>)
        requires
            self.wf(),
        ensures
            r == active_record(self@, pk_bytes@),
    {
        let fp = fingerprint_of(pk_bytes);
        match self.keys.get(&fp) {
            Some(k) => {
                if k.revoked {
                    None
                } else {
                    Some(k.clone())
                }
            },
            None => None,
        }
    }

    /// Whether the store holds no record at all.
    pub fn is_empty(&self) -> (b: bool)
        requires
            self.wf(),
        ensures
            b == self@.dom().is_empty(),
    {
        self.keys.is_empty()
    }

    /// Every record, revoked ones included, ordered by `added_at`.
    pub fn list(&self) -> (listing: Vec<AuthorizedKey>)
        requires
            self.wf(),
        ensures
            is_sorted_listing(self@, listing@),
    {
        let ghost es = self.keys.entry_seq();
        proof {
            self.keys.lemma_view();
            assert forall|a: int| 0 <= a < es.len() implies (#[trigger] es[a]).1.fingerprint@ == es[a].0@ by {
                assert(self@.contains_key(es[a].0@));
            }
            reveal(listing_prefix);
        }
        let n = self.keys.entry_count();
        let mut out: Vec<AuthorizedKey> = Vec::new();
        let mut i: usize = 0;
        while i < n
            invariant
                n == es.len(),
                es == self.keys.entry_seq(),
                i <= n,
                entries_consistent(es),
                listing_prefix(es, i as int, out@),
            decreases n - i,
        {
            let entry = self.keys.entry_at(i);
            let rec = entry.1.clone();
            let ghost old_out = out@;
            proof {
                reveal(listing_prefix);
            }
            let pos = insertion_point(&out, rec.added_at);
            out.insert(pos, rec);
            proof {
                lemma_listing_step(es, i as int, old_out, pos as int);
            }
            i = i + 1;
        }
        proof {
            lemma_listing_complete(self@, es, out@);
        }
        out
    }
}

/// Keys of the entries are distinct, and each record sits under its own
/// fingerprint.
spec fn entries_consistent(es: Seq<(String, AuthorizedKey)>) -> bool {
    &&& crate::string_map::seq_keys_unique(es)
    &&& forall|a: int| 0 <= a < es.len() ==> (#[trigger] es[a]).1.fingerprint@ == es[a].0@
}

/// `out` holds the records of the first `i` entries, each once, sorted.
#[verifier::opaque]
spec fn listing_prefix(es: Seq<(String, AuthorizedKey)>, i: int, out: Seq<AuthorizedKey>) -> bool {
    &&& forall|s: int, t: int|
        0 <= s < t < out.len() ==> (#[trigger] out[s]).added_at <= (#[trigger] out[t]).added_at
    &&& forall|s: int, t: int|
        0 <= s < out.len() && 0 <= t < out.len() && s != t ==> (#[trigger] out[s]).fingerprint@
            != (#[trigger] out[t]).fingerprint@
    &&& forall|t: int|
        0 <= t < out.len() ==> exists|a: int| 0 <= a < i && (#[trigger] out[t]) == (#[trigger] es[a]).1
    &&& forall|a: int| 0 <= a < i ==> exists|t: int| 0 <= t < out.len() && (#[trigger] out[t]) == (#[trigger] es[a]).1
}

proof fn lemma_listing_step(es: Seq<(String, AuthorizedKey)>, i: int, old_out: Seq<AuthorizedKey>, pos: int)
    requires
        0 <= i < es.len(),
        entries_consistent(es),
        listing_prefix(es, i, old_out),
        0 <= pos <= old_out.len(),
        forall|t: int| 0 <= t < pos ==> (#[trigger] old_out[t]).added_at <= es[i].1.added_at,
        forall|t: int| pos <= t < old_out.len() ==> (#[trigger] old_out[t]).added_at > es[i].1.added_at,
    ensures
        listing_prefix(es, i + 1, old_out.insert(pos, es[i].1)),
{
    reveal(listing_prefix);
    let rec = es[i].1;
    let no = old_out.insert(pos, rec);
    assert forall|t: int| 0 <= t < old_out.len() implies (#[trigger] old_out[t]).fingerprint@ != rec.fingerprint@ by {
        let a = choose|a: int| 0 <= a < i && (#[trigger] old_out[t]) == (#[trigger] es[a]).1;
        assert(es[a].0@ != es[i].0@);
    }
    assert forall|t: int| 0 <= t < no.len() implies #[trigger] no[t] == (if t < pos {
        old_out[t]
    } else if t == pos {
        rec
    } else {
        old_out[t - 1]
    }) by {}
    assert forall|s: int, t: int|
        0 <= s < t < no.len() implies (#[trigger] no[s]).added_at <= (#[trigger] no[t]).added_at by {
        if s < pos && t == pos {
        } else if s == pos && t > pos {
            assert(no[t] == old_out[t - 1]);
        } else if s < pos && t > pos {
            assert(no[t] == old_out[t - 1]);
        } else if s > pos {
            assert(no[s] == old_out[s - 1] && no[t] == old_out[t - 1]);
        }
    }
    assert forall|s: int, t: int|
        0 <= s < no.len() && 0 <= t < no.len() && s != t implies (#[trigger] no[s]).fingerprint@
        != (#[trigger] no[t]).fingerprint@ by {
        if s != pos && t != pos {
            let s2 = if s < pos { s } else { s - 1 };
            let t2 = if t < pos { t } else { t - 1 };
            assert(no[s] == old_out[s2] && no[t] == old_out[t2]);
        } else if s == pos {
            let t2 = if t < pos { t } else { t - 1 };
            assert(no[t] == old_out[t2]);
        } else {
            let s2 = if s < pos { s } else { s - 1 };
            assert(no[s] == old_out[s2]);
        }
    }
    assert forall|t: int| 0 <= t < no.len() implies exists|a: int|
        0 <= a < i + 1 && (#[trigger] no[t]) == (#[trigger] es[a]).1 by {
        if t == pos {
            assert(no[t] == es[i].1);
        } else {
            let t2 = if t < pos { t } else { t - 1 };
            assert(no[t] == old_out[t2]);
            let a = choose|a: int| 0 <= a < i && (#[trigger] old_out[t2]) == (#[trigger] es[a]).1;
            assert(no[t] == es[a].1);
        }
    }
    assert forall|a: int| 0 <= a < i + 1 implies exists|t: int|
        0 <= t < no.len() && (#[trigger] no[t]) == (#[trigger] es[a]).1 by {
        if a == i {
            assert(no[pos] == es[a].1);
        } else {
            let t = choose|t: int| 0 <= t < old_out.len() && (#[trigger] old_out[t]) == (#[trigger] es[a]).1;
            if t < pos {
                assert(no[t] == es[a].1);
            } else {
                assert(no[t + 1] == es[a].1);
            }
        }
    }
}

proof fn lemma_listing_complete(m: Map<Seq<char>, AuthorizedKey>, es: Seq<(String, AuthorizedKey)>, out: Seq<AuthorizedKey>)
    requires
        entries_consistent(es),
        listing_prefix(es, es.len() as int, out),
        forall|a: int| 0 <= a < es.len() ==> m.contains_key((#[trigger] es[a]).0@) && m[es[a].0@] == es[a].1,
        forall|k: Seq<char>| #[trigger] m.contains_key(k) <==> seq_has_key(es, k),
    ensures
        is_sorted_listing(m, out),
{
    reveal(listing_prefix);
    assert forall|t: int| 0 <= t < out.len() implies m.contains_key((#[trigger] out[t]).fingerprint@)
        && m[out[t].fingerprint@] == out[t] by {
        let a = choose|a: int| 0 <= a < es.len() && (#[trigger] out[t]) == (#[trigger] es[a]).1;
        assert(m[es[a].0@] == es[a].1);
    }
    assert forall|k: Seq<char>| #[trigger] m.contains_key(k) implies exists|t: int|
        0 <= t < out.len() && (#[trigger] out[t]).fingerprint@ == k by {
        assert(seq_has_key(es, k));
        let a = choose|a: int| 0 <= a < es.len() && (#[trigger] es[a]).0@ == k;
        let t = choose|t: int| 0 <= t < out.len() && (#[trigger] out[t]) == (#[trigger] es[a]).1;
        assert(out[t].fingerprint@ == k);
    }
}

/// The first index whose record was added strictly later than `added_at`
/// (the length where there is none): inserting there keeps the order and
/// puts a new record after those with the same time.
fn insertion_point(sorted: &Vec<AuthorizedKey>, added_at: u64) -> (pos: usize)
    requires
        forall|s: int, t: int|
            0 <= s < t < sorted@.len() ==> (#[trigger] sorted@[s]).added_at <= (#[trigger] sorted@[t]).added_at,
    ensures
        pos <= sorted@.len(),
        forall|t: int| 0 <= t < pos ==> (#[trigger] sorted@[t]).added_at <= added_at,
        forall|t: int| pos <= t < sorted@.len() ==> (#[trigger] sorted@[t]).added_at > added_at,
{
    let n = sorted.len();
    let mut pos: usize = 0;
    while pos < n
        invariant
            n == sorted@.len(),
            pos <= n,
            forall|t: int| 0 <= t < pos ==> (#[trigger] sorted@[t]).added_at <= added_at,
            forall|s: int, t: int|
                0 <= s < t < sorted@.len() ==> (#[trigger] sorted@[s]).added_at <= (#[trigger] sorted@[t]).added_at,
        decreases n - pos,
    {
        if sorted[pos].added_at > added_at {
            assert forall|t: int| pos <= t < sorted@.len() implies (#[trigger] sorted@[t]).added_at > added_at by {
                if t > pos {
                    assert(sorted@[pos as int].added_at <= sorted@[t].added_at);
                }
            }
            return pos;
        }
        pos = pos + 1;
    }
    pos
}

} // verus!
