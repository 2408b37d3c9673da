use base64::Engine;
use jottery::error::Error;
use jottery::protocol::{
    AttachmentRef, AuthRegisterRequest, DeviceType, SyncAttachment, SyncNote, SyncPullRequest, SyncPushRequest,
};
use jottery::relay::Relay;

fn millis(rfc3339: &str) -> i64 {
    chrono::DateTime::parse_from_rfc3339(rfc3339).unwrap().timestamp_millis()
}

fn note(id: &str, modified_at: i64) -> SyncNote {
    SyncNote {
        id: id.to_string(),
        created_at: millis("2025-01-01T00:00:00Z"),
        modified_at,
        content: "{\"ciphertext\":\"AAAA\",\"nonce\":\"AAAA\"}".to_string(),
        tags: vec![],
        attachments: vec![],
        pinned: false,
        deleted: false,
        deleted_at: None,
        version: 1,
        word_wrap: Some(true),
        syntax_language: Some("plain".to_string()),
    }
}

fn push_one(relay: &mut Relay, client: &String, n: SyncNote, now: i64) -> jottery::protocol::SyncPushResponse {
    relay.push(client, SyncPushRequest { notes: vec![n], attachments: vec![] }, now).unwrap()
}

fn register(relay: &mut Relay, name: &str, now: i64) -> (String, String) {
    let resp = relay.register(&AuthRegisterRequest { device_name: name.to_string(), device_type: DeviceType::Cli }, now);
    (resp.client_id, resp.api_key)
}

#[test]
fn register_push_then_pull_from_same_device_is_empty() {
    let mut relay = Relay::new(0);
    let t0 = millis("2025-06-01T12:00:00Z");
    let (client, _key) = register(&mut relay, "A", t0);
    let n1 = note("n1", millis("2025-01-01T00:00:00Z"));
    let resp = push_one(&mut relay, &client, n1, t0);
    assert_eq!(resp.accepted.len(), 1);
    assert_eq!(resp.accepted[0].id, "n1");
    assert_eq!(resp.accepted[0].server_version, 1);
    assert_eq!(resp.accepted[0].synced_at, t0);
    assert!(resp.rejected.is_empty());

    let pull = relay.pull(&client, &SyncPullRequest { last_sync_at: Some(t0), known_note_ids: vec![] }, t0);
    assert!(pull.notes.is_empty());
    assert!(pull.deletions.is_empty());
    assert!(pull.attachments.is_empty());
}

#[test]
fn older_write_is_rejected_with_the_server_stamp() {
    let mut relay = Relay::new(0);
    let t0 = millis("2025-06-01T12:00:00Z");
    let client = "c".to_string();
    push_one(&mut relay, &client, note("n1", millis("2025-01-01T00:00:00Z")), t0);
    let resp = push_one(&mut relay, &client, note("n1", millis("2024-12-31T00:00:00Z")), t0 + 5);
    assert!(resp.accepted.is_empty());
    assert_eq!(resp.rejected.len(), 1);
    assert_eq!(resp.rejected[0].id, "n1");
    assert_eq!(resp.rejected[0].reason, "Server version is newer");
    assert_eq!(resp.rejected[0].server_modified_at, t0);
    let pulled = relay.pull(&client, &SyncPullRequest { last_sync_at: None, known_note_ids: vec![] }, t0 + 6);
    assert_eq!(pulled.notes.len(), 1);
    assert_eq!(pulled.notes[0].modified_at, millis("2025-01-01T00:00:00Z"));
}

#[test]
fn server_version_counts_accepted_writes() {
    let mut relay = Relay::new(0);
    let client = "c".to_string();
    let mods = [10, 20, 15, 20, 30, 5, 40];
    let mut accepted = 0u64;
    for (k, m) in mods.iter().enumerate() {
        let r = push_one(&mut relay, &client, note("n", *m), 100 + k as i64);
        accepted += r.accepted.len() as u64;
        if let Some(a) = r.accepted.first() {
            assert_eq!(a.server_version, accepted);
        }
    }
    assert_eq!(accepted, 4);
    assert_eq!(relay.rows[0].server_version, 4);
    assert_eq!(relay.rows[0].note.modified_at, 40);
}

#[test]
fn accepted_write_blocks_later_equal_or_older_ones() {
    let mut relay = Relay::new(0);
    let client = "c".to_string();
    assert_eq!(push_one(&mut relay, &client, note("n", 500), 1).accepted.len(), 1);
    assert_eq!(push_one(&mut relay, &client, note("n", 500), 2).rejected.len(), 1);
    assert_eq!(push_one(&mut relay, &client, note("n", 499), 3).rejected.len(), 1);
    assert_eq!(push_one(&mut relay, &client, note("n", 501), 4).accepted.len(), 1);
    assert_eq!(push_one(&mut relay, &client, note("n", 500), 5).rejected.len(), 1);
}

#[test]
fn pull_is_idempotent_and_ordered_by_stamp() {
    let mut relay = Relay::new(0);
    let client = "c".to_string();
    push_one(&mut relay, &client, note("a", 1), 100);
    push_one(&mut relay, &client, note("b", 1), 200);
    push_one(&mut relay, &client, note("a", 2), 300);
    let first = relay.pull(&client, &SyncPullRequest { last_sync_at: None, known_note_ids: vec![] }, 400);
    let ids: Vec<&str> = first.notes.iter().map(|n| n.id.as_str()).collect();
    assert_eq!(ids, vec!["b", "a"]);
    assert_eq!(first.synced_at, 400);
    let second = relay.pull(&client, &SyncPullRequest { last_sync_at: Some(first.synced_at), known_note_ids: vec![] }, 400);
    assert!(second.notes.is_empty());
    let partial = relay.pull(&client, &SyncPullRequest { last_sync_at: Some(200), known_note_ids: vec![] }, 500);
    assert_eq!(partial.notes.len(), 1);
    assert_eq!(partial.notes[0].id, "a");
}

#[test]
fn write_after_a_pull_at_the_same_instant_is_still_seen() {
    let mut relay = Relay::new(0);
    let client = "c".to_string();
    push_one(&mut relay, &client, note("a", 1), 100);
    let p = relay.pull(&client, &SyncPullRequest { last_sync_at: None, known_note_ids: vec![] }, 100);
    let r = push_one(&mut relay, &client, note("b", 1), 100);
    assert!(r.accepted[0].synced_at > p.synced_at);
    let next = relay.pull(&client, &SyncPullRequest { last_sync_at: Some(p.synced_at), known_note_ids: vec![] }, 100);
    assert_eq!(next.notes.len(), 1);
    assert_eq!(next.notes[0].id, "b");
}

#[test]
fn clients_see_only_their_own_rows() {
    let mut relay = Relay::new(0);
    let a = "a".to_string();
    let b = "b".to_string();
    push_one(&mut relay, &a, note("n1", 1), 10);
    push_one(&mut relay, &b, note("n1", 1), 11);
    assert_eq!(relay.rows.len(), 2);
    let pa = relay.pull(&a, &SyncPullRequest { last_sync_at: None, known_note_ids: vec![] }, 20);
    assert_eq!(pa.notes.len(), 1);
    let status = relay.status(&b, 99);
    assert_eq!(status.note_count, 1);
    assert_eq!(status.server_last_modified, 11);
    assert_eq!(relay.status(&"nobody".to_string(), 99).server_last_modified, 99);
}

#[test]
fn attachments_are_stored_served_and_cascade_on_delete() {
    let mut relay = Relay::new(0);
    let client = "c".to_string();
    let mut n = note("n1", 1);
    n.attachments = vec![AttachmentRef {
        id: "att1".to_string(),
        filename: "enc-name".to_string(),
        mime_type: "image/png".to_string(),
        size: 3,
        data: "att1".to_string(),
    }];
    let data = base64::engine::general_purpose::STANDARD.encode([1u8, 2, 3]);
    let req = SyncPushRequest { notes: vec![n], attachments: vec![SyncAttachment { id: "att1".to_string(), data: data.clone() }] };
    relay.push(&client, req, 5).unwrap();
    let pulled = relay.pull(&client, &SyncPullRequest { last_sync_at: None, known_note_ids: vec![] }, 6);
    assert_eq!(pulled.attachments.len(), 1);
    assert_eq!(pulled.attachments[0].id, "att1");
    assert_eq!(pulled.attachments[0].data, data);

    relay.delete_note(&client, &"n1".to_string());
    assert!(relay.rows.is_empty());
    assert!(relay.blobs.is_empty());
    relay.delete_note(&client, &"n1".to_string());
    assert!(relay.rows.is_empty());
}

#[test]
fn invalid_attachment_data_is_refused_without_changes() {
    let mut relay = Relay::new(0);
    let client = "c".to_string();
    let req = SyncPushRequest {
        notes: vec![note("n1", 1)],
        attachments: vec![SyncAttachment { id: "x".to_string(), data: "%%%".to_string() }],
    };
    assert_eq!(relay.push(&client, req, 5).unwrap_err(), Error::InvalidInput);
    assert!(relay.rows.is_empty());
    assert_eq!(relay.clock, 0);
}

#[test]
fn registration_and_bearer_authentication() {
    let mut relay = Relay::new(0);
    let (client, key) = register(&mut relay, "laptop", 7);
    assert_eq!(key.len(), 64);
    assert!(key.chars().all(|c| c.is_ascii_hexdigit() && !c.is_ascii_uppercase()));
    assert_eq!(client.len(), 36);
    let stored = &relay.clients[0];
    assert_ne!(stored.api_key_hash, key);
    assert_eq!(stored.api_key_hash, hex::encode(<sha2::Sha256 as sha2::Digest>::digest(key.as_bytes())));
    assert_eq!(stored.device_type, "cli");

    let header = format!("Bearer {}", key);
    assert_eq!(relay.authenticate(&header, 50), Ok(client.clone()));
    assert_eq!(relay.clients[0].last_seen_at, 50);
    assert_eq!(relay.authenticate(&key, 60), Err(Error::Unauthorized));
    assert_eq!(relay.authenticate("Bearer 00", 60), Err(Error::Unauthorized));
    relay.clients[0].is_active = false;
    assert_eq!(relay.authenticate(&header, 70), Err(Error::Unauthorized));
}

#[test]
fn any_device_name_registers() {
    let mut relay = Relay::new(0);
    let r = relay.register(&AuthRegisterRequest { device_name: String::new(), device_type: DeviceType::Web }, 1);
    assert_eq!(r.api_key.len(), 64);
    assert_eq!(relay.clients.len(), 1);
    assert_eq!(relay.clients[0].device_type, "web");
}

#[test]
fn pushed_note_is_what_a_pull_returns() {
    let mut relay = Relay::new(0);
    let client = "c".to_string();
    let mut n = note("n1", 10);
    n.content = "cipher-A".to_string();
    n.tags = vec!["t-A".to_string()];
    n.deleted = true;
    n.deleted_at = Some(9);
    let r = push_one(&mut relay, &client, n, 100);
    assert_eq!(r.accepted[0].server_version, 1);
    let mut newer = note("n1", 20);
    newer.content = "cipher-B".to_string();
    newer.created_at = 5;
    let r2 = push_one(&mut relay, &client, newer, 200);
    assert_eq!(r2.accepted[0].server_version, 2);
    let p = relay.pull(&client, &SyncPullRequest { last_sync_at: Some(100), known_note_ids: vec![] }, 300);
    assert_eq!(p.notes.len(), 1);
    assert_eq!(p.notes[0].content, "cipher-B");
    assert!(p.notes[0].tags.is_empty());
    assert!(!p.notes[0].deleted);
    assert_eq!(p.notes[0].created_at, millis("2025-01-01T00:00:00Z"));
    let stale = push_one(&mut relay, &client, note("n1", 15), 400);
    assert_eq!(stale.rejected[0].server_modified_at, 200);
}
