use base64::Engine;
use jottery::config::{parse_decimal, Config};
use jottery::note::{Note, SyntaxLanguage};
use jottery::settings::{parse_sort_order, parse_theme, SortOrder, Theme, UserSettings};
use jottery::sync_meta::{parse_sync_status, SyncCredentials, SyncMetadata, SyncStatus};
use jottery::vault::{EncryptionAlgorithm, EncryptionMetadata};

#[test]
fn test_note_creation() {
    let note = Note::new("Test content".to_string());
    assert_eq!(note.content, "Test content");
    assert_eq!(note.version, 1);
    assert!(!note.deleted);
    assert!(!note.pinned);
    assert_eq!(note.tags.len(), 0);
}

#[test]
fn test_note_touch() {
    let mut note = Note::with_id("n".to_string(), "Test".to_string(), 1_000);
    let first_modified = note.modified_at;
    note.touch_at(1_010);
    assert!(note.modified_at > first_modified);
    assert_eq!(note.version, 2);
}

#[test]
fn test_note_delete_restore() {
    let mut note = Note::new("Test".to_string());
    assert!(!note.deleted);
    assert!(note.deleted_at.is_none());

    note.mark_deleted();
    assert!(note.deleted);
    assert!(note.deleted_at.is_some());

    note.restore();
    assert!(!note.deleted);
    assert!(note.deleted_at.is_none());
}

#[test]
fn note_mutations_bump_the_version() {
    let mut note = Note::with_id("n".to_string(), "x".to_string(), 10);
    note.toggle_pin_at(20);
    assert!(note.pinned);
    note.mark_deleted_at(30);
    assert_eq!(note.deleted_at, Some(30));
    note.restore_at(40);
    assert_eq!(note.version, 4);
    assert_eq!(note.modified_at, 40);
    assert_eq!(note.created_at, 10);
}

#[test]
fn test_syntax_language_from_str() {
    assert_eq!("plain".parse::<SyntaxLanguage>().unwrap(), SyntaxLanguage::Plain);
    assert_eq!("javascript".parse::<SyntaxLanguage>().unwrap(), SyntaxLanguage::Javascript);
    assert_eq!("js".parse::<SyntaxLanguage>().unwrap(), SyntaxLanguage::Javascript);
    assert_eq!("python".parse::<SyntaxLanguage>().unwrap(), SyntaxLanguage::Python);
}

#[test]
fn syntax_language_names_and_aliases() {
    assert_eq!(SyntaxLanguage::parse("SH"), Ok(SyntaxLanguage::Bash));
    assert_eq!(SyntaxLanguage::parse("Md"), Ok(SyntaxLanguage::Markdown));
    assert_eq!(SyntaxLanguage::parse("cobol"), Err("Unknown syntax language: cobol".to_string()));
    assert_eq!(SyntaxLanguage::parse_or_plain("cobol"), SyntaxLanguage::Plain);
    assert_eq!(SyntaxLanguage::Javascript.as_str(), "javascript");
}

#[test]
fn test_default_settings() {
    let settings = UserSettings::default();
    assert_eq!(settings.language, "en-GB");
    assert_eq!(settings.theme, Theme::Auto);
    assert_eq!(settings.sort_order, SortOrder::Recent);
    assert_eq!(settings.auto_lock_timeout, 15);
    assert!(!settings.sync_enabled);
}

#[test]
fn test_settings_validation() {
    let mut settings = UserSettings::default();
    assert!(settings.validate().is_ok());

    settings.auto_lock_timeout = 0;
    assert!(settings.validate().is_err());

    settings.auto_lock_timeout = 15;

    settings.sync_enabled = true;
    assert!(settings.validate().is_err());

    settings.sync_endpoint = Some("https://example.com".to_string());
    assert!(settings.validate().is_ok());

    settings.sync_endpoint = Some("ftp://example.com".to_string());
    assert!(settings.validate().is_err());
}

#[test]
fn auto_lock_bounds_are_inclusive() {
    let mut settings = UserSettings::default();
    settings.auto_lock_timeout = 1;
    assert!(settings.validate().is_ok());
    settings.auto_lock_timeout = 1440;
    assert!(settings.validate().is_ok());
    settings.auto_lock_timeout = 1441;
    assert!(settings.validate().is_err());
    settings.auto_lock_timeout = 15;
    settings.sync_endpoint = Some("http://localhost:3030".to_string());
    assert!(settings.validate().is_ok());
}

#[test]
fn theme_and_sort_order_names_cycle_and_parse() {
    assert_eq!(parse_theme("DARK"), Theme::Dark);
    assert_eq!(parse_theme("sepia"), Theme::Auto);
    assert_eq!(parse_sort_order("Alpha"), SortOrder::Alpha);
    assert_eq!(parse_sort_order("?"), SortOrder::Recent);
    let mut s = UserSettings::default();
    s.cycle_theme();
    assert_eq!(s.theme, Theme::Light);
    s.cycle_sort_order();
    s.cycle_sort_order();
    assert_eq!(s.sort_order, SortOrder::Alpha);
    assert_eq!(Theme::Dark.as_str(), "dark");
    assert_eq!(SortOrder::Created.as_str(), "created");
}

#[test]
fn sync_status_names() {
    assert_eq!(parse_sync_status("Conflict"), SyncStatus::Conflict);
    assert_eq!(parse_sync_status("synced"), SyncStatus::Synced);
    assert_eq!(parse_sync_status("whatever"), SyncStatus::Pending);
    assert_eq!(SyncStatus::Error.as_str(), "error");
    let m = SyncMetadata::default();
    assert_eq!(m.auto_sync_interval, Some(5));
    assert!(m.last_sync_at.is_none());
}

#[test]
fn test_encryption_metadata_creation() {
    let salt = base64::engine::general_purpose::STANDARD.encode(b"test_salt_16byte");
    let metadata = EncryptionMetadata::new(salt.clone());
    assert_eq!(metadata.salt, salt);
    assert_eq!(metadata.iterations, 256_000);
    assert_eq!(metadata.algorithm, EncryptionAlgorithm::Aes256Gcm);
}

#[test]
fn test_encryption_metadata_validation() {
    let salt = base64::engine::general_purpose::STANDARD.encode(b"test_salt");
    let metadata = EncryptionMetadata::new(salt);
    assert!(metadata.validate().is_ok());

    let mut bad_metadata = metadata.clone();
    bad_metadata.iterations = 50_000;
    assert!(bad_metadata.validate().is_err());

    let mut bad_metadata = metadata.clone();
    bad_metadata.salt = "not valid base64!!!".to_string();
    assert!(bad_metadata.validate().is_err());
}

#[test]
fn metadata_with_iterations_enforces_the_floor() {
    assert!(EncryptionMetadata::with_iterations("AAAA".to_string(), 99_999).is_err());
    let m = EncryptionMetadata::with_iterations("AAAA".to_string(), 100_000).unwrap();
    assert_eq!(m.iterations, 100_000);
    assert_eq!(EncryptionAlgorithm::Aes256Gcm.as_str(), "AES-256-GCM");
}

#[test]
fn test_credentials_roundtrip() {
    let creds = SyncCredentials::new(
        "https://example.com/api".to_string(),
        "test-api-key-12345".to_string(),
        "client-id-abcde".to_string(),
    );

    let encoded = creds.to_base64();
    let decoded = SyncCredentials::from_base64(&encoded).unwrap();

    assert_eq!(decoded.endpoint, creds.endpoint);
    assert_eq!(decoded.api_key, creds.api_key);
    assert_eq!(decoded.client_id, creds.client_id);
}

#[test]
fn test_credentials_from_invalid_base64() {
    let result = SyncCredentials::from_base64("invalid!!!base64");
    assert!(result.is_err());
}

#[test]
fn credentials_wire_format() {
    let mut creds = SyncCredentials::new("https://e".to_string(), "k\"1".to_string(), "c".to_string());
    creds.salt = Some("c2FsdA==".to_string());
    let encoded = creds.to_base64();
    let json = String::from_utf8(base64::engine::general_purpose::STANDARD.decode(&encoded).unwrap()).unwrap();
    assert_eq!(json, "{\"endpoint\":\"https://e\",\"apiKey\":\"k\\\"1\",\"clientId\":\"c\",\"salt\":\"c2FsdA==\"}");
    let back = SyncCredentials::from_base64(&encoded).unwrap();
    assert_eq!(back.api_key, "k\"1");
    assert_eq!(back.salt, Some("c2FsdA==".to_string()));
    let missing = base64::engine::general_purpose::STANDARD.encode("{\"endpoint\":\"x\"}");
    assert!(SyncCredentials::from_base64(&missing).is_err());
}

#[test]
fn notes_sort_newest_first() {
    let notes = vec![
        Note::with_id("a".to_string(), String::new(), 5),
        Note::with_id("b".to_string(), String::new(), 9),
        Note::with_id("c".to_string(), String::new(), 1),
        Note::with_id("d".to_string(), String::new(), 9),
    ];
    let sorted = jottery::note::sort_newest_first(notes);
    let times: Vec<i64> = sorted.iter().map(|n| n.modified_at).collect();
    assert_eq!(times, vec![9, 9, 5, 1]);
    let mut ids: Vec<&str> = sorted.iter().map(|n| n.id.as_str()).collect();
    ids.sort();
    assert_eq!(ids, vec!["a", "b", "c", "d"]);
    assert!(jottery::note::sort_newest_first(vec![]).is_empty());
}

#[test]
fn relay_config_defaults_and_overrides() {
    let d = Config::from_values(None, None, None);
    assert_eq!(d.database_url, "sqlite:jottery.db");
    assert_eq!(d.port, 3030);
    assert_eq!(d.max_payload_size, 10_485_760);
    let c = Config::from_values(Some("sqlite:x.db".to_string()), Some("8080"), Some("1024"));
    assert_eq!(c.database_url, "sqlite:x.db");
    assert_eq!(c.port, 8080);
    assert_eq!(c.max_payload_size, 1024);
    assert_eq!(Config::from_values(None, Some("70000"), Some("12ab")).port, 3030);
    assert_eq!(Config::from_values(None, Some("65535"), Some("12ab")).max_payload_size, 10_485_760);
    assert_eq!(parse_decimal("007", 10), Some(7));
    assert_eq!(parse_decimal("11", 10), None);
    assert_eq!(parse_decimal("", 10), None);
    assert_eq!(parse_decimal("99999999999999999999999", u64::MAX - 1), None);
}
