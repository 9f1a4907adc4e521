use admin_presence::keys::{fingerprint_of, AdminKeyStore, AuthorizedKey, KeyStoreError, DEFAULT_KEYS_FILE};
use sodiumoxide::crypto::sign;

fn temp_store_path(name: &str) -> String {
    format!("admin_keys_test_{name}.json")
}

#[test]
fn add_list_revoke_roundtrip() {
    let path = temp_store_path("roundtrip");
    let mut store = AdminKeyStore::empty(path);
    assert!(store.is_empty());

    let (pk, _sk) = sign::gen_keypair();
    let record = store.add(&pk.0, "nina-laptop admin").unwrap();
    assert_eq!(record.label, "nina-laptop admin");
    assert!(!record.revoked);

    assert!(store.find_active(pk.as_ref()).is_some());
    assert_eq!(store.list().len(), 1);

    assert!(store.revoke(&record.fingerprint));
    assert!(store.find_active(pk.as_ref()).is_none());
    // Still listed (soft delete), just marked revoked.
    assert_eq!(store.list().len(), 1);
    assert!(store.list()[0].revoked);

    // Revoking again reports "nothing to do" rather than erroring.
    assert!(!store.revoke(&record.fingerprint));
}

#[test]
fn add_duplicate_fingerprint_is_rejected() {
    let path = temp_store_path("dup");
    let mut store = AdminKeyStore::empty(path);
    let (pk, _sk) = sign::gen_keypair();
    store.add(&pk.0, "first").unwrap();
    let err = store.add(&pk.0, "second").unwrap_err();
    assert!(matches!(err, KeyStoreError::AlreadyExists { .. }));
}

#[test]
fn persists_and_reloads_from_disk() {
    let path = temp_store_path("persist");
    let (pk, _sk) = sign::gen_keypair();
    let saved = {
        let mut store = AdminKeyStore::empty(path.clone());
        store.add(&pk.0, "reload-me").unwrap();
        store.list()
    };
    let reloaded = AdminKeyStore::from_records(path, saved);
    let found = reloaded.find_active(pk.as_ref()).unwrap();
    assert_eq!(found.label, "reload-me");
}

#[test]
fn unknown_key_is_not_active() {
    let path = temp_store_path("unknown");
    let store = AdminKeyStore::empty(path);
    let (pk, _sk) = sign::gen_keypair();
    assert!(store.find_active(pk.as_ref()).is_none());
}

#[test]
fn fingerprint_is_hex_of_first_half_of_sha256() {
    // sha256("") = e3b0c44298fc1c149afbf4c8996fb92427ae41e4649b934ca495991b7852b855
    assert_eq!(fingerprint_of(&[]), "e3b0c44298fc1c149afbf4c8996fb924");
    // sha256("abc") = ba7816bf8f01cfea414140de5dae2223b00361a396177a9cb410ff61f20015ad
    assert_eq!(fingerprint_of(b"abc"), "ba7816bf8f01cfea414140de5dae2223");
}

#[test]
fn added_record_holds_key_in_base64_and_time() {
    let mut store = AdminKeyStore::empty("k.json".to_string());
    let pk = [7u8; 32];
    let record = store.add_at(&pk, "laptop", 1234).unwrap();
    assert_eq!(record.fingerprint, fingerprint_of(&pk));
    assert_eq!(record.public_key, base64::encode(pk));
    assert_eq!(record.added_at, 1234);
    assert_eq!(record.last_used_at, None);
    let err = store.add_at(&pk, "again", 99).unwrap_err();
    match err {
        KeyStoreError::AlreadyExists { fingerprint } => assert_eq!(fingerprint, fingerprint_of(&pk)),
    }
    assert_eq!(store.list()[0].label, "laptop");
}

#[test]
fn revoked_key_cannot_be_added_again() {
    let mut store = AdminKeyStore::empty("k.json".to_string());
    let pk = [9u8; 32];
    let record = store.add_at(&pk, "one", 1).unwrap();
    assert!(store.revoke(&record.fingerprint));
    assert!(store.add_at(&pk, "two", 2).is_err());
    assert!(store.find_active(&pk).is_none());
}

#[test]
fn list_is_ordered_by_added_time() {
    let mut store = AdminKeyStore::empty("k.json".to_string());
    store.add_at(&[1u8; 32], "c", 30).unwrap();
    store.add_at(&[2u8; 32], "a", 10).unwrap();
    store.add_at(&[3u8; 32], "b", 20).unwrap();
    let labels: Vec<String> = store.list().into_iter().map(|k| k.label).collect();
    assert_eq!(labels, vec!["a".to_string(), "b".to_string(), "c".to_string()]);
}

#[test]
fn touch_last_used_records_the_time() {
    let mut store = AdminKeyStore::empty("k.json".to_string());
    let pk = [4u8; 32];
    let record = store.add_at(&pk, "x", 5).unwrap();
    store.touch_last_used_at(&record.fingerprint, 77);
    assert_eq!(store.find_active(&pk).unwrap().last_used_at, Some(77));
    store.touch_last_used_at("0000", 88);
    assert_eq!(store.list().len(), 1);
    store.touch_last_used(&record.fingerprint);
    assert!(store.find_active(&pk).unwrap().last_used_at.is_some());
}

#[test]
fn revoking_an_unknown_fingerprint_changes_nothing() {
    let mut store = AdminKeyStore::empty("k.json".to_string());
    store.add_at(&[5u8; 32], "x", 5).unwrap();
    assert!(!store.revoke("not-a-fingerprint"));
    assert!(!store.list()[0].revoked);
}

#[test]
fn from_records_keeps_the_later_duplicate() {
    let make = |label: &str, added_at: u64| AuthorizedKey {
        fingerprint: "fp".to_string(),
        public_key: "pk".to_string(),
        label: label.to_string(),
        added_at,
        last_used_at: None,
        revoked: false,
    };
    let store = AdminKeyStore::from_records("k.json".to_string(), vec![make("old", 1), make("new", 2)]);
    let listed = store.list();
    assert_eq!(listed.len(), 1);
    assert_eq!(listed[0].label, "new");
    assert_eq!(store.path(), "k.json");
}

#[test]
fn default_path_is_used_when_none_is_configured() {
    assert_eq!(AdminKeyStore::resolve_default_path(None), DEFAULT_KEYS_FILE);
    assert_eq!(AdminKeyStore::resolve_default_path(Some("/tmp/keys.json".to_string())), "/tmp/keys.json");
}

#[test]
fn refresh_picks_up_a_revocation_made_elsewhere() {
    let (pk, _sk) = sign::gen_keypair();
    let mut served = AdminKeyStore::empty("k.json".to_string());
    let record = served.add_at(&pk.0, "client", 1).unwrap();
    assert!(served.is_stale(Some(100)));
    served.refresh(Some((served.list(), 100)));
    assert!(!served.is_stale(Some(100)));
    assert!(!served.is_stale(None));
    assert!(served.find_active(pk.as_ref()).is_some());

    // Another process revokes the key and rewrites the file.
    let mut utility = AdminKeyStore::from_records("k.json".to_string(), served.list());
    assert!(utility.revoke(&record.fingerprint));
    assert!(served.is_stale(Some(200)));
    served.refresh(Some((utility.list(), 200)));
    assert!(served.find_active(pk.as_ref()).is_none());
    assert_eq!(served.list().len(), 1);

    served.refresh(None);
    assert!(served.find_active(pk.as_ref()).is_none());
}
