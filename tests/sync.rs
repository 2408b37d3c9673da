use base64::Engine;
use jottery::crypto::CryptoService;
use jottery::error::Error;
use jottery::note::Note;
use jottery::protocol::{SyncPullRequest, SyncPullResponse, SyncDeletion};
use jottery::relay::Relay;
use jottery::sync_meta::{NoteSyncMetadata, SyncCredentials, SyncStatus};
use jottery::vault::Vault;

fn millis(rfc3339: &str) -> i64 {
    chrono::DateTime::parse_from_rfc3339(rfc3339).unwrap().timestamp_millis()
}

fn unlocked_vault(password: &str) -> Vault {
    let crypto = CryptoService::new();
    let mut v = Vault::new(crypto.generate_salt());
    v.unlock(password, &crypto.generate_salt(), 0).unwrap();
    v
}

/// One full cycle as an application runs it: push, pull, apply, record.
fn sync_cycle(v: &mut Vault, relay: &mut Relay, client: &String, now: i64) -> u64 {
    let notes = v.push_set().unwrap();
    let pushed = !notes.is_empty();
    if pushed {
        let req = v.build_push_request(&notes).unwrap();
        relay.push(client, req, now).unwrap();
    }
    let pull = relay.pull(client, &SyncPullRequest { last_sync_at: v.sync.last_sync_at, known_note_ids: vec![] }, now);
    let applied = v.apply_pull(&pull).unwrap();
    v.finish_sync(pushed, pull.synced_at);
    applied
}

/// A second device sharing the first one's master-key salt, as after a
/// credential import.
fn paired_vault(first: &Vault, password: &str) -> Vault {
    let mut second = unlocked_vault(password);
    let salt = first.encryption.as_ref().unwrap().salt.clone();
    let mut creds = SyncCredentials::new("https://relay.example".to_string(), "k".to_string(), "c".to_string());
    creds.salt = Some(salt);
    second.import_credentials(&creds, 0).unwrap();
    second.unlock(password, &Vec::new(), 0).unwrap();
    second
}

#[test]
fn create_update_delete_counts_versions_with_one_row() {
    let mut v = unlocked_vault("pw");
    let mut n = Note::with_id("n1".to_string(), "a".to_string(), 1);
    v.store.create(&n).unwrap();
    assert_eq!(v.store.create(&n), Err(Error::AlreadyExists));
    n.content = "b".to_string();
    v.store.update(&n).unwrap();
    v.store.delete_at(&"n1".to_string(), 5).unwrap();
    n.content = "c".to_string();
    v.store.update(&n).unwrap();
    let all = v.store.list(true).unwrap();
    let rows: Vec<&Note> = all.iter().filter(|x| x.id == "n1").collect();
    assert_eq!(rows.len(), 1);
    assert_eq!(rows[0].version, 4);
    assert_eq!(rows[0].content, "c");
    assert!(v.store.list(false).unwrap().iter().all(|x| x.id != "n1" || !x.deleted));
    v.store.delete_at(&"missing".to_string(), 6).unwrap();
    assert_eq!(v.store.count(true), Ok(1));
}

#[test]
fn store_round_trips_and_reports_errors() {
    let mut v = unlocked_vault("pw");
    let mut n = Note::with_id("x".to_string(), "secret text".to_string(), 10);
    n.tags = vec!["t1".to_string(), "t2".to_string()];
    v.store.create(&n).unwrap();
    assert_ne!(v.store.notes[0].content.ciphertext, "secret text");
    let got = v.store.get(&"x".to_string()).unwrap();
    assert_eq!(got.content, "secret text");
    assert_eq!(got.tags, vec!["t1".to_string(), "t2".to_string()]);
    assert_eq!(v.store.get(&"nope".to_string()).unwrap_err(), Error::NotFound);
    assert_eq!(v.store.update(&Note::with_id("nope".to_string(), String::new(), 0)), Err(Error::NotFound));
    assert_eq!(v.store.get_modified_after(10).unwrap().len(), 0);
    assert_eq!(v.store.get_modified_after(9).unwrap().len(), 1);
    v.store.hard_delete(&"x".to_string()).unwrap();
    assert_eq!(v.store.count(true), Ok(0));
    v.lock();
    assert_eq!(v.store.get(&"x".to_string()).unwrap_err(), Error::KeyRequired);
    assert_eq!(v.store.list(true).unwrap_err(), Error::KeyRequired);
}

#[test]
fn unlock_fails_on_wrong_password_then_succeeds_with_the_right_one() {
    let crypto = CryptoService::new();
    let mut v = Vault::new(crypto.generate_salt());
    v.unlock("p1", &crypto.generate_salt(), 0).unwrap();
    v.store.create(&Note::with_id("n".to_string(), "hidden".to_string(), 1)).unwrap();
    v.lock();

    assert_eq!(v.unlock("p2", &Vec::new(), 0), Err(Error::AuthenticationFailed));
    assert!(!v.is_unlocked());
    assert_eq!(v.store.get(&"n".to_string()).unwrap_err(), Error::KeyRequired);

    v.unlock("p1", &Vec::new(), 0).unwrap();
    assert_eq!(v.store.get(&"n".to_string()).unwrap().content, "hidden");
}

#[test]
fn new_store_refuses_an_empty_password() {
    let crypto = CryptoService::new();
    let mut v = Vault::new(crypto.generate_salt());
    assert_eq!(v.unlock("", &crypto.generate_salt(), 0), Err(Error::InvalidInput));
    assert!(!v.is_unlocked());
    assert!(!v.is_initialized());
    v.unlock("pw", &crypto.generate_salt(), 0).unwrap();
    assert!(v.is_initialized());
}

#[test]
fn first_pulled_note_keeps_remote_creation_time_and_version() {
    let mut v = unlocked_vault("pw");
    let key = v.store.key.unwrap();
    let mut remote = Note::with_id("r".to_string(), "body".to_string(), 7);
    remote.modified_at = 9;
    remote.version = 5;
    remote.tags = vec!["x".to_string()];
    let s = jottery::sync_engine::to_sync_note(&remote, &key).unwrap();
    assert_eq!(v.apply_remote_note(&s), Ok(true));
    let got = v.store.get(&"r".to_string()).unwrap();
    assert_eq!(got.created_at, 7);
    assert_eq!(got.version, 5);
    assert_eq!(got.content, "body");
    assert_eq!(got.tags, vec!["x".to_string()]);
}

#[test]
fn first_unlock_needs_a_full_salt() {
    let crypto = CryptoService::new();
    let mut v = Vault::new(crypto.generate_salt());
    assert_eq!(v.unlock("pw", &vec![0u8; 31], 0), Err(Error::InvalidSalt));
    v.unlock("pw", &vec![0u8; 32], 0).unwrap();
    assert_eq!(v.encryption.as_ref().unwrap().iterations, 256_000);
}

#[test]
fn credential_bootstrap_changes_salt_and_rewraps_the_api_key() {
    let mut v = unlocked_vault("pw");
    let old_key = v.store.key.unwrap();
    let new_salt = base64::engine::general_purpose::STANDARD.encode([42u8; 32]);
    let mut creds = SyncCredentials::new("https://relay.example".to_string(), "api-secret".to_string(), "client-1".to_string());
    creds.salt = Some(new_salt.clone());
    v.import_credentials(&creds, 9).unwrap();

    assert_eq!(v.encryption.as_ref().unwrap().salt, new_salt);
    assert_eq!(v.encryption.as_ref().unwrap().iterations, 256_000);
    assert!(!v.is_unlocked());
    assert_eq!(v.sync.api_key.as_deref(), Some("PLAINTEXT:api-secret"));
    assert!(v.settings.as_ref().unwrap().sync_enabled);

    v.unlock("pw", &Vec::new(), 10).unwrap();
    let new_key = v.store.key.unwrap();
    assert_ne!(old_key, new_key);
    let expected = CryptoService::new().derive_key("pw", &[42u8; 32], 256_000).unwrap();
    assert_eq!(new_key, expected);
    assert!(!v.sync.api_key.as_ref().unwrap().starts_with("PLAINTEXT:"));
    assert_eq!(v.sync_api_key().unwrap(), "api-secret");
}

#[test]
fn bootstrap_refuses_bad_salts_and_needs_an_unlocked_store() {
    let mut v = unlocked_vault("pw");
    let mut creds = SyncCredentials::new("https://e".to_string(), "k".to_string(), "c".to_string());
    creds.salt = Some("***".to_string());
    assert_eq!(v.import_credentials(&creds, 0), Err(Error::InvalidInput));
    creds.salt = Some(base64::engine::general_purpose::STANDARD.encode([1u8; 31]));
    assert_eq!(v.import_credentials(&creds, 0), Err(Error::InvalidSalt));
    creds.salt = None;
    v.import_credentials(&creds, 0).unwrap();
    assert!(v.is_unlocked());
    v.lock();
    assert_eq!(v.import_credentials(&creds, 0), Err(Error::KeyRequired));
}

#[test]
fn two_devices_converge() {
    let mut relay = Relay::new(0);
    let client = "client".to_string();
    let mut a = unlocked_vault("pw");
    let mut b = paired_vault(&a, "pw");
    assert_eq!(a.store.key, b.store.key);

    let t1 = millis("2025-01-01T00:00:00Z");
    let mut n1 = Note::with_id("n1".to_string(), "from A".to_string(), t1);
    n1.tags = vec!["work".to_string()];
    a.store.create(&n1).unwrap();
    sync_cycle(&mut a, &mut relay, &client, 1_000);

    assert_eq!(sync_cycle(&mut b, &mut relay, &client, 2_000), 1);
    let mut on_b = b.store.get(&"n1".to_string()).unwrap();
    assert_eq!(on_b.content, "from A");
    assert_eq!(on_b.tags, vec!["work".to_string()]);

    let t2 = millis("2025-01-02T00:00:00Z");
    on_b.content = "edited on B".to_string();
    on_b.modified_at = t2;
    b.store.update(&on_b).unwrap();
    sync_cycle(&mut b, &mut relay, &client, 3_000);

    sync_cycle(&mut a, &mut relay, &client, 4_000);
    let on_a = a.store.get(&"n1".to_string()).unwrap();
    assert_eq!(on_a.content, "edited on B");
    assert_eq!(on_a.modified_at, t2);
    assert_eq!(b.store.get(&"n1".to_string()).unwrap().content, on_a.content);

    // Nothing new: a further cycle applies nothing.
    assert_eq!(sync_cycle(&mut a, &mut relay, &client, 5_000), 0);
}

#[test]
fn soft_delete_replicates() {
    let mut relay = Relay::new(0);
    let client = "client".to_string();
    let mut a = unlocked_vault("pw");
    let mut b = paired_vault(&a, "pw");

    a.store.create(&Note::with_id("n1".to_string(), "x".to_string(), 100)).unwrap();
    sync_cycle(&mut a, &mut relay, &client, 1_000);
    sync_cycle(&mut b, &mut relay, &client, 1_100);
    assert!(!b.store.get(&"n1".to_string()).unwrap().deleted);

    a.store.delete_at(&"n1".to_string(), 1_500).unwrap();
    sync_cycle(&mut a, &mut relay, &client, 2_000);
    assert!(relay.rows[0].note.deleted);
    sync_cycle(&mut b, &mut relay, &client, 2_100);
    let on_b = b.store.get(&"n1".to_string()).unwrap();
    assert!(on_b.deleted);
    assert_eq!(on_b.deleted_at, Some(1_500));
}

#[test]
fn equal_times_keep_the_local_copy_and_deletions_remove_rows() {
    let mut v = unlocked_vault("pw");
    v.store.create(&Note::with_id("n1".to_string(), "local".to_string(), 50)).unwrap();
    let key = v.store.key.unwrap();
    let remote_note = {
        let mut other = Note::with_id("n1".to_string(), "remote".to_string(), 50);
        other.version = 9;
        jottery::sync_engine::to_sync_note(&other, &key).unwrap()
    };
    assert_eq!(v.apply_remote_note(&remote_note), Ok(false));
    assert_eq!(v.store.get(&"n1".to_string()).unwrap().content, "local");

    let mut newer = remote_note.clone();
    newer.modified_at = 51;
    assert_eq!(v.apply_remote_note(&newer), Ok(true));
    assert_eq!(v.store.get(&"n1".to_string()).unwrap().content, "remote");

    let resp = SyncPullResponse {
        notes: vec![],
        deletions: vec![SyncDeletion { id: "n1".to_string(), deleted_at: 60 }],
        attachments: vec![],
        synced_at: 70,
    };
    assert_eq!(v.apply_pull(&resp), Ok(1));
    assert_eq!(v.store.count(true), Ok(0));
}

#[test]
fn undecryptable_remote_note_aborts_the_cycle() {
    let mut v = unlocked_vault("pw");
    let other_key = [7u8; 32];
    let foreign = jottery::sync_engine::to_sync_note(&Note::with_id("z".to_string(), "t".to_string(), 1), &other_key).unwrap();
    let resp = SyncPullResponse { notes: vec![foreign], deletions: vec![], attachments: vec![], synced_at: 5 };
    assert_eq!(v.apply_pull(&resp), Err(Error::AuthenticationFailed));
    assert_eq!(v.store.count(true), Ok(0));
    assert!(v.sync.last_sync_at.is_none());
}

#[test]
fn first_push_sends_live_notes_and_later_ones_only_changes() {
    let mut v = unlocked_vault("pw");
    v.store.create(&Note::with_id("live".to_string(), "a".to_string(), 10)).unwrap();
    let mut gone = Note::with_id("gone".to_string(), "b".to_string(), 10);
    gone.deleted = true;
    v.store.create(&gone).unwrap();
    assert_eq!(v.push_set().unwrap().len(), 1);
    v.finish_sync(true, 10);
    assert_eq!(v.sync.last_push_at, Some(10));
    assert!(v.push_set().unwrap().is_empty());
    v.store.delete_at(&"live".to_string(), 20).unwrap();
    let again = v.push_set().unwrap();
    assert_eq!(again.len(), 1);
    assert!(again[0].deleted);
}

#[test]
fn settings_and_attachments_in_the_vault() {
    let mut v = unlocked_vault("pw");
    assert_eq!(v.get_settings().auto_lock_timeout, 15);
    assert_eq!(v.set_auto_lock_timeout(0), Err(Error::InvalidInput));
    v.set_auto_lock_timeout(30).unwrap();
    assert_eq!(v.get_settings().auto_lock_timeout, 30);
    let mut bad = v.get_settings();
    bad.sync_endpoint = Some("ftp://x".to_string());
    assert_eq!(v.update_settings(bad), Err(Error::InvalidInput));

    let id = "att".to_string();
    v.store_attachment(&id, "photo.png", "image/png", 3, &[1, 2, 3]).unwrap();
    let got = v.get_attachment(&id).unwrap();
    assert_eq!(got.filename, "photo.png");
    assert_eq!(got.data, vec![1, 2, 3]);
    assert_eq!(v.attachment_size(&id), Some(3));
    v.store_attachment(&"att2".to_string(), "b", "text/plain", 4, &[0; 4]).unwrap();
    assert_eq!(v.attachment_count(), 2);
    assert_eq!(v.attachments_total_size(), 7);
    v.delete_attachment(&id).unwrap();
    assert_eq!(v.attachment_size(&id), None);
    assert!(matches!(v.get_attachment(&id), Err(Error::NotFound)));
}

#[test]
fn per_note_sync_bookkeeping() {
    let mut v = unlocked_vault("pw");
    let entry = |id: &str, status: SyncStatus| NoteSyncMetadata {
        note_id: id.to_string(),
        synced_at: 1,
        sync_hash: "h".to_string(),
        server_version: 1,
        last_sync_status: status,
        error_message: None,
    };
    v.update_note_metadata(entry("a", SyncStatus::Pending));
    v.update_note_metadata(entry("b", SyncStatus::Synced));
    v.update_note_metadata(entry("c", SyncStatus::Pending));
    v.update_note_metadata(entry("a", SyncStatus::Conflict));
    assert_eq!(v.note_sync.len(), 3);
    assert_eq!(v.get_pending_notes(), vec!["c".to_string()]);
    assert_eq!(v.count_by_status(SyncStatus::Conflict), 1);
    assert_eq!(v.get_note_metadata(&"a".to_string()).unwrap().last_sync_status, SyncStatus::Conflict);
    assert!(v.get_note_metadata(&"z".to_string()).is_none());
    v.set_credentials("{}".to_string(), "client".to_string());
    assert_eq!(v.sync.client_id.as_deref(), Some("client"));
    v.clear_sync();
    assert!(v.note_sync.is_empty());
    assert!(v.sync.api_key.is_none());
}

#[test]
fn listings_are_newest_first() {
    let mut v = unlocked_vault("pw");
    for (id, t) in [("a", 30), ("b", 10), ("c", 20)] {
        v.store.create(&Note::with_id(id.to_string(), id.to_string(), t)).unwrap();
    }
    let ids: Vec<String> = v.store.list(false).unwrap().into_iter().map(|n| n.id).collect();
    assert_eq!(ids, vec!["a".to_string(), "c".to_string(), "b".to_string()]);
    let after: Vec<String> = v.store.get_modified_after(15).unwrap().into_iter().map(|n| n.id).collect();
    assert_eq!(after, vec!["a".to_string(), "c".to_string()]);
}
