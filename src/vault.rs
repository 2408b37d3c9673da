//! The unlock life cycle of a local store.
//!
//! Two keys come from the user's password. The container key, derived with
//! the container's own salt, protects the whole store at rest: an AES-GCM
//! seal of the empty message under it tells a right password from a wrong
//! one, since only the key that made the seal opens it. The master key, derived with the salt of the encryption metadata,
//! encrypts note fields and is shared by all devices of one user, which is
//! why a credential import may replace that salt.
use vstd::prelude::*;
use vstd::utf8::*;

use crate::codec::{base64_bytes, base64_decode, base64_encode, has_prefix, starts_with};
use crate::crypto::{
    CryptoService, EncryptedData, derived_key, envelope_json, opened_text, seals, lemma_decrypt_encrypted_bytes, opened_bytes,
    SALT_LENGTH,
};
use crate::error::Error;
use crate::settings::{UserSettings, settings_valid};
use crate::protocol::opt_str_view;
use crate::store::NoteStore;
use crate::sync_meta::{SyncCredentials, SyncMetadata};
use crate::system::now_millis;

verus! {

/// Iteration count recorded with every master-key salt, whether made for a
/// new store or imported from a peer, so that devices sharing a salt derive
/// the same key.
pub const KEY_ITERATIONS: i32 = 256_000;
/// Iteration count of the container key.
pub const CONTAINER_ITERATIONS: u32 = 100_000;

/// Whether `check` authenticates under `container_key`: it is an AES-GCM
/// seal of the empty message, so only the key that made it opens it.
pub open spec fn check_opens(container_key: Seq<u8>, check: EncryptedData) -> bool {
    opened_bytes(container_key, check) == Some(Seq::<u8>::empty())
}

/// Whether a cleartext API key left by a credential import is short enough
/// to be encrypted.
pub open spec fn rewrap_fits(sync: SyncMetadata) -> bool {
    match sync.api_key {
        Some(k) => has_prefix(k@, plaintext_marker()) ==> encode_utf8(k@.subrange(10, k@.len() as int)).len()
            <= crate::crypto::AES_GCM_MAX_PLAINTEXT,
        None => true,
    }
}

/// Whether `password` may unlock the vault: it passes the password check
/// (when one exists), a new store gets a non-empty password and a full
/// salt, and the recorded salt is usable.
pub open spec fn unlock_admissible(v: Vault, password: Seq<char>, fresh_salt: Seq<u8>) -> bool {
    &&& match v.key_check {
        Some(c) => check_opens(container_key_of(password, v.container_salt@), c),
        None => true,
    }
    &&& match v.encryption {
        Some(m) => master_key_of(password, m) is Some,
        None => fresh_salt.len() >= SALT_LENGTH && password.len() > 0,
    }
    &&& rewrap_fits(v.sync)
}

/// The prefix that marks an API key stored in the clear until the next unlock.
pub open spec fn plaintext_marker() -> Seq<char> {
    "PLAINTEXT:"@
}

/// The only algorithm in use.
#[derive(Debug, Clone, Copy, PartialEq, Eq, Structural)]
pub enum EncryptionAlgorithm {
    Aes256Gcm,
}

impl EncryptionAlgorithm {
    pub fn as_str(&self) -> (r: &'static str)
        ensures
            r@ == "AES-256-GCM"@,
    {
        "AES-256-GCM"
    }
}

impl Default for EncryptionAlgorithm {
    fn default() -> (r: Self)
        ensures
            r == EncryptionAlgorithm::Aes256Gcm,
    {
        EncryptionAlgorithm::Aes256Gcm
    }
}

/// Parameters of master-key derivation, written on first unlock.
#[derive(Debug, Clone)]
pub struct EncryptionMetadata {
    /// Base64 of the PBKDF2 salt.
    pub salt: String,
    pub iterations: i32,
    pub created_at: i64,
    pub algorithm: EncryptionAlgorithm,
}

/// Whether metadata is usable: at least 100 000 iterations and a non-empty,
/// base64 salt.
pub open spec fn metadata_valid(m: EncryptionMetadata) -> bool {
    &&& m.iterations >= 100_000
    &&& m.salt@.len() > 0
    &&& base64_bytes(m.salt@) is Some
}

impl EncryptionMetadata {
    /// Metadata with the default iteration count, created at `now`.
    pub fn new_at(salt: String, now: i64) -> (r: EncryptionMetadata)
        ensures
            r.salt == salt,
            r.iterations == KEY_ITERATIONS,
            r.created_at == now,
            r.algorithm == EncryptionAlgorithm::Aes256Gcm,
    {
        EncryptionMetadata { salt, iterations: KEY_ITERATIONS, created_at: now, algorithm: EncryptionAlgorithm::Aes256Gcm }
    }

    /// Metadata with the default iteration count, created now.
    pub fn new(salt: String) -> (r: EncryptionMetadata)
        ensures
            r.salt == salt,
            r.iterations == KEY_ITERATIONS,
            r.algorithm == EncryptionAlgorithm::Aes256Gcm,
    {
        EncryptionMetadata::new_at(salt, now_millis())
    }

    /// Metadata with a chosen iteration count, refused below 100 000.
    pub fn with_iterations(salt: String, iterations: i32) -> (r: Result<EncryptionMetadata, String>)
        ensures
            r is Ok <==> iterations >= 100_000,
            r is Ok ==> r->Ok_0.salt == salt && r->Ok_0.iterations == iterations
                && r->Ok_0.algorithm == EncryptionAlgorithm::Aes256Gcm,
    {
        if iterations < 100_000 {
            return Err("Iterations must be at least 100,000".to_string());
        }
        Ok(EncryptionMetadata { salt, iterations, created_at: now_millis(), algorithm: EncryptionAlgorithm::Aes256Gcm })
    }

    /// Checks the metadata; the message names the first fault.
    pub fn validate(&self) -> (r: Result<(), String>)
        ensures
            r is Ok <==> metadata_valid(*self),
    {
        if self.iterations < 100_000 {
            return Err("Iterations must be at least 100,000".to_string());
        }
        if self.salt.as_str().is_empty() {
            return Err("Salt cannot be empty".to_string());
        }
        if base64_decode(self.salt.as_str()).is_none() {
            return Err("Salt must be valid base64".to_string());
        }
        Ok(())
    }
}

/// The iteration count handed to key derivation for a recorded count.
pub open spec fn rounds_of(iterations: i32) -> u32 {
    if iterations < 0 { 0 } else { iterations as u32 }
}

/// The master key that `password` derives under metadata `m`.
pub open spec fn master_key_of(password: Seq<char>, m: EncryptionMetadata) -> Option<Seq<u8>> {
    match base64_bytes(m.salt@) {
        Some(salt) => if salt.len() >= SALT_LENGTH {
            Some(derived_key(password, salt, rounds_of(m.iterations)))
        } else {
            None
        },
        None => None,
    }
}

/// The container key that `password` derives.
pub open spec fn container_key_of(password: Seq<char>, container_salt: Seq<u8>) -> Seq<u8> {
    derived_key(password, container_salt, CONTAINER_ITERATIONS)
}

/// A local store with its unlock state.
pub struct Vault {
    pub store: NoteStore,
    pub attachments: Vec<crate::attachments::StoredAttachment>,
    /// Per-note sync bookkeeping, at most one entry per note id.
    pub note_sync: Vec<crate::sync_meta::NoteSyncMetadata>,
    /// Salt of the container key; fixed when the store is made.
    pub container_salt: Vec<u8>,
    /// The empty message sealed under the container key, from first unlock on.
    pub key_check: Option<EncryptedData>,
    pub encryption: Option<EncryptionMetadata>,
    pub sync: SyncMetadata,
    pub settings: Option<UserSettings>,
}

impl Vault {
    pub open spec fn wf(&self) -> bool {
        &&& self.store.wf()
        &&& self.container_salt@.len() >= SALT_LENGTH
    }

    /// A new, never unlocked store whose container key uses `container_salt`.
    pub fn new(container_salt: Vec<u8>) -> (r: Vault)
        requires
            container_salt@.len() >= SALT_LENGTH,
        ensures
            r.wf(),
            r.store.key is None,
            r.store.notes@.len() == 0,
            r.attachments@.len() == 0,
            r.container_salt == container_salt,
            r.key_check is None,
            r.encryption is None,
            r.settings is None,
    {
        Vault {
            store: NoteStore::new(),
            attachments: Vec::new(),
            note_sync: Vec::new(),
            container_salt,
            key_check: None,
            encryption: None,
            sync: SyncMetadata::default(),
            settings: None,
        }
    }

    /// Checks the invariant of a store read back from disk: unique note
    /// ids, positive versions and a full container salt.
    #[verifier::rlimit(50)]
    pub fn check_wf(&self) -> (r: bool)
        ensures
            r == self.wf(),
    {
        if self.container_salt.len() < SALT_LENGTH {
            return false;
        }
        let rows = &self.store.notes;
        let mut i: usize = 0;
        while i < rows.len()
            invariant
                *rows == self.store.notes,
                i <= rows@.len(),
                forall|a: int| 0 <= a < i ==> (#[trigger] rows@[a]).version >= 1,
                forall|a: int, b: int| 0 <= a < b < rows@.len() && a < i ==> (#[trigger] rows@[a]).id@ != (#[trigger] rows@[b]).id@,
            decreases rows@.len() - i,
        {
            if rows[i].version < 1 {
                assert(!self.store.wf()) by {
                    assert(self.store.notes@[i as int].version < 1);
                }
                return false;
            }
            let mut j: usize = i + 1;
            while j < rows.len()
                invariant
                    *rows == self.store.notes,
                    i < j <= rows@.len(),
                    forall|b: int| i < b < j ==> rows@[i as int].id@ != (#[trigger] rows@[b]).id@,
                decreases rows@.len() - j,
            {
                if rows[i].id == rows[j].id {
                    assert(!crate::store::unique_ids(self.store.notes@)) by {
                        assert(self.store.notes@[i as int].id@ == self.store.notes@[j as int].id@);
                    }
                    return false;
                }
                j = j + 1;
            }
            i = i + 1;
        }
        true
    }

    /// Whether the store was ever unlocked, so that its encryption
    /// metadata exists.
    pub fn is_initialized(&self) -> (r: bool)
        ensures
            r == self.encryption is Some,
    {
        self.encryption.is_some()
    }

    /// Whether the master key is held.
    pub fn is_unlocked(&self) -> (r: bool)
        ensures
            r == self.store.key is Some,
    {
        self.store.key.is_some()
    }

    /// Drops the master key.
    pub fn lock(&mut self)
        ensures
            final(self).store.key is None,
            final(self).store.notes == old(self).store.notes,
            final(self).container_salt == old(self).container_salt,
            final(self).key_check == old(self).key_check,
            final(self).encryption == old(self).encryption,
            final(self).sync == old(self).sync,
            final(self).settings == old(self).settings,
    {
        self.store.key = None;
    }

    /// Unlocks with `password`.
    ///
    /// On first unlock the password must not be empty (`InvalidInput`), the
    /// empty message is sealed under the container key as the password
    /// check, and the encryption metadata records `fresh_salt` (32 bytes or
    /// more, else `InvalidSalt`) with 256 000 iterations. On later unlocks a
    /// password whose container key does not open the check fails with
    /// `AuthenticationFailed`, and the store stays locked. Once unlocked, an
    /// API key left in the clear by a credential import is encrypted under
    /// the new master key. Unlocking succeeds exactly when
    /// `unlock_admissible` holds.
    pub fn unlock(&mut self, password: &str, fresh_salt: &Vec<u8>, now: i64) -> (r: Result<(), Error>)
        requires
            old(self).wf(),
        ensures
            final(self).wf(),
            final(self).store.notes == old(self).store.notes,
            final(self).container_salt == old(self).container_salt,
            final(self).settings == old(self).settings,
            final(self).attachments == old(self).attachments,
            final(self).note_sync == old(self).note_sync,
            r is Ok <==> unlock_admissible(*old(self), password@, fresh_salt@),
            r is Err ==> final(self).store.key is None && final(self).key_check == old(self).key_check
                && final(self).encryption == old(self).encryption && final(self).sync == old(self).sync,
            old(self).encryption is None && fresh_salt@.len() < SALT_LENGTH ==> r == Err::<(), Error>(Error::InvalidSalt),
            old(self).encryption is None && fresh_salt@.len() >= SALT_LENGTH && password@.len() == 0
                ==> r == Err::<(), Error>(Error::InvalidInput),
            !(old(self).encryption is None && (fresh_salt@.len() < SALT_LENGTH || password@.len() == 0))
                && old(self).key_check is Some
                && !check_opens(container_key_of(password@, old(self).container_salt@), old(self).key_check->0)
                ==> r == Err::<(), Error>(Error::AuthenticationFailed),
            r is Ok ==> {
                &&& final(self).encryption is Some
                &&& final(self).store.key is Some
                &&& Some(final(self).store.key->0@) == master_key_of(password@, final(self).encryption->0)
                &&& final(self).key_check is Some
                &&& check_opens(container_key_of(password@, final(self).container_salt@), final(self).key_check->0)
                &&& old(self).key_check is Some ==> final(self).key_check == old(self).key_check
                &&& old(self).encryption is Some ==> final(self).encryption == old(self).encryption
                &&& old(self).encryption is None ==> base64_bytes(final(self).encryption->0.salt@) == Some(fresh_salt@)
                    && final(self).encryption->0.iterations == KEY_ITERATIONS
                &&& rewrapped(old(self).sync, final(self).sync, final(self).store.key->0@)
            },
    {
        if self.encryption.is_none() && fresh_salt.len() < SALT_LENGTH {
            self.store.key = None;
            return Err(Error::InvalidSalt);
        }
        if self.encryption.is_none() && password.is_empty() {
            self.store.key = None;
            return Err(Error::InvalidInput);
        }
        let crypto = CryptoService::new();
        let container_key = match crypto.derive_key(password, self.container_salt.as_slice(), CONTAINER_ITERATIONS) {
            Ok(k) => k,
            Err(e) => {
                self.store.key = None;
                return Err(e);
            },
        };
        let mut check_to_write: Option<EncryptedData> = None;
        match &self.key_check {
            Some(check) => {
                match crypto.decrypt_binary(check, &container_key) {
                    Ok(bytes) => {
                        if bytes.len() != 0 {
                            self.store.key = None;
                            return Err(Error::AuthenticationFailed);
                        }
                        assert(bytes@ =~= Seq::<u8>::empty());
                    },
                    Err(_) => {
                        self.store.key = None;
                        return Err(Error::AuthenticationFailed);
                    },
                }
            },
            None => {
                let empty: Vec<u8> = Vec::new();
                match crypto.encrypt_binary(empty.as_slice(), &container_key) {
                    Ok(c) => {
                        proof {
                            lemma_decrypt_encrypted_bytes(container_key@, empty@, c);
                        }
                        check_to_write = Some(c);
                    },
                    Err(e) => {
                        self.store.key = None;
                        return Err(e);
                    },
                }
            },
        }
        let metadata = match &self.encryption {
            Some(m) => EncryptionMetadata {
                salt: m.salt.clone(),
                iterations: m.iterations,
                created_at: m.created_at,
                algorithm: m.algorithm,
            },
            None => EncryptionMetadata::new_at(base64_encode(fresh_salt.as_slice()), now),
        };
        let salt = match base64_decode(metadata.salt.as_str()) {
            Some(s) => s,
            None => {
                self.store.key = None;
                return Err(Error::AuthenticationFailed);
            },
        };
        let rounds: u32 = if metadata.iterations < 0 { 0 } else { metadata.iterations as u32 };
        let key = match crypto.derive_key(password, salt.as_slice(), rounds) {
            Ok(k) => k,
            Err(_) => {
                self.store.key = None;
                return Err(Error::AuthenticationFailed);
            },
        };
        let new_sync = match rewrap_api_key(&self.sync, &key) {
            Ok(s) => s,
            Err(e) => {
                self.store.key = None;
                return Err(e);
            },
        };
        match check_to_write {
            Some(c) => {
                self.key_check = Some(c);
            },
            None => {},
        }
        self.encryption = Some(metadata);
        self.sync = new_sync;
        self.store.key = Some(key);
        Ok(())
    }
}

/// The settings a store reports: the stored ones, or the defaults.
pub open spec fn effective_settings(stored: Option<UserSettings>, defaults: UserSettings) -> UserSettings {
    match stored {
        Some(s) => s,
        None => defaults,
    }
}

impl Vault {
    /// The stored settings, or the defaults when none were stored.
    pub fn get_settings(&self) -> (r: UserSettings)
        ensures
            self.settings is Some ==> r == self.settings->0,
            self.settings is None ==> r.language@ == "en-GB"@ && r.theme == crate::settings::Theme::Auto
                && r.sort_order == crate::settings::SortOrder::Recent && r.auto_lock_timeout == 15 && !r.sync_enabled
                && r.sync_endpoint is None,
    {
        match &self.settings {
            Some(s) => s.duplicate(),
            None => UserSettings::default(),
        }
    }

    /// Stores settings after validating them; invalid ones are refused with
    /// `InvalidInput` and nothing changes.
    pub fn update_settings(&mut self, settings: UserSettings) -> (r: Result<(), Error>)
        ensures
            r is Ok <==> settings_valid(settings),
            r is Ok ==> *final(self) == (Vault { settings: Some(settings), ..*old(self) }),
            r is Err ==> r->Err_0 == Error::InvalidInput && *final(self) == *old(self),
    {
        match settings.validate() {
            Ok(()) => {
                self.settings = Some(settings);
                Ok(())
            },
            Err(_) => Err(Error::InvalidInput),
        }
    }

    /// Sets the auto-lock timeout, refusing values outside 1 to 1440 minutes.
    pub fn set_auto_lock_timeout(&mut self, minutes: i32) -> (r: Result<(), Error>)
        ensures
            r is Ok <==> 1 <= minutes <= 1440,
            r is Ok ==> final(self).settings is Some && final(self).settings->0.auto_lock_timeout == minutes
                && *final(self) == (Vault { settings: final(self).settings, ..*old(self) }),
            r is Err ==> r->Err_0 == Error::InvalidInput && *final(self) == *old(self),
    {
        if minutes < 1 || minutes > 1440 {
            return Err(Error::InvalidInput);
        }
        let mut s = self.get_settings();
        s.auto_lock_timeout = minutes;
        self.settings = Some(s);
        Ok(())
    }

    /// Imports shared credentials (device bootstrap). Needs the store
    /// unlocked. The API key is kept behind the cleartext marker until the
    /// next unlock encrypts it; sync is enabled with the given endpoint.
    /// When the credentials carry a salt, it must be base64
    /// (`InvalidInput`) of at least 32 bytes (`InvalidSalt`); it replaces
    /// the metadata salt with 256 000 iterations and the store is locked,
    /// so that the next unlock derives the master key the peers share.
    pub fn import_credentials(&mut self, creds: &SyncCredentials, now: i64) -> (r: Result<(), Error>)
        requires
            old(self).wf(),
        ensures
            final(self).wf(),
            final(self).store.notes == old(self).store.notes,
            final(self).container_salt == old(self).container_salt,
            final(self).key_check == old(self).key_check,
            old(self).store.key is None ==> r == Err::<(), Error>(Error::KeyRequired),
            r is Err ==> *final(self) == *old(self),
            r is Ok <==> old(self).store.key is Some && match creds.salt {
                Some(s) => base64_bytes(s@) is Some && base64_bytes(s@)->0.len() >= SALT_LENGTH,
                None => true,
            },
            match (r, creds.salt) {
                (Err(e), Some(s)) => old(self).store.key is Some ==> if base64_bytes(s@) is None {
                    e == Error::InvalidInput
                } else {
                    e == Error::InvalidSalt
                },
                _ => true,
            },
            r is Ok ==> {
                &&& final(self).sync.api_key is Some
                &&& final(self).sync.api_key->0@ == plaintext_marker() + creds.api_key@
                &&& final(self).sync.client_id is Some
                &&& final(self).sync.client_id->0@ == creds.client_id@
                &&& final(self).sync.sync_endpoint@ == creds.endpoint@
                &&& final(self).sync.sync_enabled
                &&& final(self).sync.last_sync_at == old(self).sync.last_sync_at
                &&& final(self).settings is Some
                &&& final(self).settings->0.sync_enabled
                &&& opt_str_view(final(self).settings->0.sync_endpoint) == Some(creds.endpoint@)
                &&& match creds.salt {
                    Some(s) => {
                        &&& final(self).encryption is Some
                        &&& final(self).encryption->0.salt@ == s@
                        &&& final(self).encryption->0.iterations == KEY_ITERATIONS
                        &&& final(self).store.key is None
                    },
                    None => {
                        &&& final(self).encryption == old(self).encryption
                        &&& final(self).store.key == old(self).store.key
                    },
                }
            },
    {
        if self.store.key.is_none() {
            return Err(Error::KeyRequired);
        }
        match &creds.salt {
            Some(s) => {
                match base64_decode(s.as_str()) {
                    None => return Err(Error::InvalidInput),
                    Some(bytes) => {
                        if bytes.len() < SALT_LENGTH {
                            return Err(Error::InvalidSalt);
                        }
                    },
                }
            },
            None => {},
        }
        let mut api_key = "PLAINTEXT:".to_string();
        api_key.append(creds.api_key.as_str());
        self.sync.api_key = Some(api_key);
        self.sync.client_id = Some(creds.client_id.clone());
        self.sync.sync_endpoint = creds.endpoint.clone();
        self.sync.sync_enabled = true;
        let mut settings = self.get_settings();
        settings.sync_endpoint = Some(creds.endpoint.clone());
        settings.sync_enabled = true;
        self.settings = Some(settings);
        match &creds.salt {
            Some(s) => {
                self.encryption = Some(EncryptionMetadata {
                    salt: s.clone(),
                    iterations: KEY_ITERATIONS,
                    created_at: now,
                    algorithm: EncryptionAlgorithm::Aes256Gcm,
                });
                self.lock();
            },
            None => {},
        }
        Ok(())
    }
}

/// Whether `after` is `before` with a cleartext API key (marker prefix)
/// replaced by its envelope under `key`, serialized as JSON.
pub open spec fn rewrapped(before: SyncMetadata, after: SyncMetadata, key: Seq<u8>) -> bool {
    match before.api_key {
        Some(k) => if has_prefix(k@, plaintext_marker()) {
            &&& after == SyncMetadata { api_key: after.api_key, ..before }
            &&& after.api_key is Some
            &&& exists|e: EncryptedData| {
                &&& #[trigger] envelope_json(e) == after.api_key->0@
                &&& seals(key, encode_utf8(k@.subrange(10, k@.len() as int)), e)
            }
        } else {
            after == before
        },
        None => after == before,
    }
}

/// Encrypts an API key that a credential import left in the clear.
fn rewrap_api_key(sync: &SyncMetadata, key: &[u8; 32]) -> (r: Result<SyncMetadata, Error>)
    ensures
        r is Ok <==> rewrap_fits(*sync),
        match r {
            Ok(after) => rewrapped(*sync, after, key@),
            Err(e) => e == Error::EncryptionFailed,
        },
{
    let copy = SyncMetadata {
        last_sync_at: sync.last_sync_at,
        last_push_at: sync.last_push_at,
        last_pull_at: sync.last_pull_at,
        api_key: crate::protocol::clone_opt_str(&sync.api_key),
        client_id: crate::protocol::clone_opt_str(&sync.client_id),
        sync_enabled: sync.sync_enabled,
        sync_endpoint: sync.sync_endpoint.clone(),
        auto_sync_interval: sync.auto_sync_interval,
    };
    assert(copy == *sync);
    match &sync.api_key {
        Some(k) => {
            proof {
                reveal_strlit("PLAINTEXT:");
            }
            if starts_with(k.as_str(), "PLAINTEXT:") {
                let n = k.as_str().unicode_len();
                let plain = k.as_str().substring_char(10, n);
                let crypto = CryptoService::new();
                let e = crypto.encrypt_text(plain, key)?;
                let json = e.to_json();
                let after = SyncMetadata { api_key: Some(json), ..copy };
                assert(envelope_json(e) == after.api_key->0@);
                Ok(after)
            } else {
                Ok(copy)
            }
        },
        None => Ok(copy),
    }
}

} // verus!
