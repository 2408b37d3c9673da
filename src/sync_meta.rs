//! Sync bookkeeping kept in the local store, and the credentials format
//! that onboards a second device.
use vstd::prelude::*;
use vstd::utf8::*;

use crate::codec::{
    base64_bytes, base64_decode, base64_encode, base64_text, json_field, json_quote, json_string_literal,
    json_text_field, lowercase, same_text, to_lowercase, utf8_decode,
};
use crate::protocol::{clone_opt_str, opt_str_view};
use crate::vault::Vault;

verus! {

/// Global sync state of a local store.
#[derive(Debug, Clone)]
pub struct SyncMetadata {
    pub last_sync_at: Option<i64>,
    pub last_push_at: Option<i64>,
    pub last_pull_at: Option<i64>,
    /// The API key as a JSON envelope under the master key, or, right after
    /// a credential import, the marker prefix followed by the plain key.
    pub api_key: Option<String>,
    /// The client id the relay assigned.
    pub client_id: Option<String>,
    pub sync_enabled: bool,
    pub sync_endpoint: String,
    /// Minutes between automatic syncs (0 disables).
    pub auto_sync_interval: Option<i32>,
}

impl SyncMetadata {
    /// Never synced, sync off, no endpoint, automatic sync every 5 minutes.
    pub fn default() -> (r: SyncMetadata)
        ensures
            r.last_sync_at is None,
            r.last_push_at is None,
            r.last_pull_at is None,
            r.api_key is None,
            r.client_id is None,
            !r.sync_enabled,
            r.sync_endpoint@.len() == 0,
            r.auto_sync_interval == Some(5i32),
    {
        SyncMetadata {
            last_sync_at: None,
            last_push_at: None,
            last_pull_at: None,
            api_key: None,
            client_id: None,
            sync_enabled: false,
            sync_endpoint: String::new(),
            auto_sync_interval: Some(5),
        }
    }
}

/// Sync state of one note.
#[derive(Debug, Clone, Copy, PartialEq, Eq, Structural)]
pub enum SyncStatus {
    Synced,
    Pending,
    Conflict,
    Error,
}

pub open spec fn sync_status_name(s: SyncStatus) -> Seq<char> {
    match s {
        SyncStatus::Synced => "synced"@,
        SyncStatus::Pending => "pending"@,
        SyncStatus::Conflict => "conflict"@,
        SyncStatus::Error => "error"@,
    }
}

/// The status a stored name stands for; unknown names mean `Pending`.
pub open spec fn sync_status_named(name: Seq<char>) -> SyncStatus {
    if name == "synced"@ {
        SyncStatus::Synced
    } else if name == "conflict"@ {
        SyncStatus::Conflict
    } else if name == "error"@ {
        SyncStatus::Error
    } else {
        SyncStatus::Pending
    }
}

impl SyncStatus {
    pub fn as_str(&self) -> (r: &'static str)
        ensures
            r@ == sync_status_name(*self),
    {
        match self {
            SyncStatus::Synced => "synced",
            SyncStatus::Pending => "pending",
            SyncStatus::Conflict => "conflict",
            SyncStatus::Error => "error",
        }
    }
}

/// Parses a stored status name, ignoring case.
pub fn parse_sync_status(s: &str) -> (r: SyncStatus)
    ensures
        r == sync_status_named(lowercase(s@)),
{
    let lower = to_lowercase(s);
    let l = lower.as_str();
    if same_text(l, "synced") {
        SyncStatus::Synced
    } else if same_text(l, "conflict") {
        SyncStatus::Conflict
    } else if same_text(l, "error") {
        SyncStatus::Error
    } else {
        SyncStatus::Pending
    }
}

/// Per-note sync bookkeeping.
#[derive(Debug, Clone)]
pub struct NoteSyncMetadata {
    pub note_id: String,
    pub synced_at: i64,
    pub sync_hash: String,
    pub server_version: u64,
    pub last_sync_status: SyncStatus,
    pub error_message: Option<String>,
}

impl NoteSyncMetadata {
    /// A copy of this entry.
    pub fn duplicate(&self) -> (r: NoteSyncMetadata)
        ensures
            r == *self,
    {
        NoteSyncMetadata {
            note_id: self.note_id.clone(),
            synced_at: self.synced_at,
            sync_hash: self.sync_hash.clone(),
            server_version: self.server_version,
            last_sync_status: self.last_sync_status,
            error_message: clone_opt_str(&self.error_message),
        }
    }
}

/// No two entries share a note id.
pub open spec fn unique_entries(rows: Seq<NoteSyncMetadata>) -> bool {
    forall|a: int, b: int| 0 <= a < b < rows.len() ==> (#[trigger] rows[a]).note_id@ != (#[trigger] rows[b]).note_id@
}

/// The entries whose last status is `status`.
pub open spec fn entries_with(rows: Seq<NoteSyncMetadata>, status: SyncStatus) -> Seq<NoteSyncMetadata> {
    rows.filter(status_pred(status))
}

pub open spec fn status_pred(status: SyncStatus) -> spec_fn(NoteSyncMetadata) -> bool {
    |m: NoteSyncMetadata| m.last_sync_status == status
}

impl Vault {
    /// Stores the API key envelope (JSON) and the client id.
    pub fn set_credentials(&mut self, api_key: String, client_id: String)
        ensures
            *final(self) == (Vault {
                sync: SyncMetadata { api_key: Some(api_key), client_id: Some(client_id), ..old(self).sync },
                ..*old(self)
            }),
    {
        self.sync.api_key = Some(api_key);
        self.sync.client_id = Some(client_id);
    }

    /// Forgets all sync state (before registering again).
    pub fn clear_sync(&mut self)
        ensures
            final(self).note_sync@.len() == 0,
            final(self).sync.last_sync_at is None,
            final(self).sync.api_key is None,
            final(self).sync.client_id is None,
            !final(self).sync.sync_enabled,
            final(self).store == old(self).store,
            final(self).encryption == old(self).encryption,
    {
        self.sync = SyncMetadata::default();
        self.note_sync = Vec::new();
    }

    /// The sync entry of a note, if any.
    pub fn get_note_metadata(&self, note_id: &String) -> (r: Option<NoteSyncMetadata>)
        ensures
            match r {
                Some(m) => exists|i: int| 0 <= i < self.note_sync@.len() && #[trigger] self.note_sync@[i] == m
                    && m.note_id@ == note_id@,
                None => forall|i: int| 0 <= i < self.note_sync@.len() ==> (#[trigger] self.note_sync@[i]).note_id@ != note_id@,
            },
    {
        let mut i: usize = 0;
        while i < self.note_sync.len()
            invariant
                i <= self.note_sync@.len(),
                forall|j: int| 0 <= j < i ==> (#[trigger] self.note_sync@[j]).note_id@ != note_id@,
            decreases self.note_sync@.len() - i,
        {
            if self.note_sync[i].note_id == *note_id {
                let m = self.note_sync[i].duplicate();
                assert(self.note_sync@[i as int] == m);
                return Some(m);
            }
            i = i + 1;
        }
        None
    }

    /// Records a note's sync entry, replacing the previous one.
    pub fn update_note_metadata(&mut self, entry: NoteSyncMetadata)
        requires
            unique_entries(old(self).note_sync@),
        ensures
            unique_entries(final(self).note_sync@),
            final(self).store == old(self).store,
            final(self).sync == old(self).sync,
            exists|i: int| 0 <= i < final(self).note_sync@.len() && #[trigger] final(self).note_sync@[i] == entry,
            forall|m: NoteSyncMetadata| m.note_id@ != entry.note_id@ ==> (final(self).note_sync@.contains(m)
                <==> old(self).note_sync@.contains(m)),
    {
        let ghost old_rows = self.note_sync@;
        let mut i: usize = 0;
        while i < self.note_sync.len()
            invariant
                self.note_sync@ == old_rows,
                self.store == old(self).store,
                self.sync == old(self).sync,
                old_rows == old(self).note_sync@,
                unique_entries(old_rows),
                i <= old_rows.len(),
                forall|j: int| 0 <= j < i ==> (#[trigger] old_rows[j]).note_id@ != entry.note_id@,
            decreases old_rows.len() - i,
        {
            if self.note_sync[i].note_id == entry.note_id {
                let ghost e = entry;
                self.note_sync.set(i, entry);
                proof {
                    let rows = self.note_sync@;
                    assert(rows[i as int] == e);
                    assert forall|a: int, b: int| 0 <= a < b < rows.len() implies (#[trigger] rows[a]).note_id@
                        != (#[trigger] rows[b]).note_id@ by {
                        assert(old_rows[a].note_id@ != old_rows[b].note_id@);
                    }
                    assert forall|m: NoteSyncMetadata| m.note_id@ != e.note_id@ implies (rows.contains(m)
                        <==> old_rows.contains(m)) by {
                        if rows.contains(m) {
                            let w = choose|w: int| 0 <= w < rows.len() && rows[w] == m;
                            assert(old_rows[w] == rows[w]);
                        }
                        if old_rows.contains(m) {
                            let w = choose|w: int| 0 <= w < old_rows.len() && old_rows[w] == m;
                            assert(w != i);
                            assert(rows[w] == old_rows[w]);
                        }
                    }
                }
                return;
            }
            i = i + 1;
        }
        let ghost e = entry;
        self.note_sync.push(entry);
        proof {
            let rows = self.note_sync@;
            let n = old_rows.len() as int;
            assert(rows[n] == e);
            assert forall|a: int, b: int| 0 <= a < b < rows.len() implies (#[trigger] rows[a]).note_id@
                != (#[trigger] rows[b]).note_id@ by {
                if b < n {
                    assert(old_rows[a].note_id@ != old_rows[b].note_id@);
                } else {
                    assert(rows[a] == old_rows[a]);
                }
            }
            assert forall|m: NoteSyncMetadata| m.note_id@ != e.note_id@ implies (rows.contains(m)
                <==> old_rows.contains(m)) by {
                if rows.contains(m) {
                    let w = choose|w: int| 0 <= w < rows.len() && rows[w] == m;
                    assert(w < n);
                    assert(old_rows[w] == rows[w]);
                }
                if old_rows.contains(m) {
                    let w = choose|w: int| 0 <= w < old_rows.len() && old_rows[w] == m;
                    assert(rows[w] == old_rows[w]);
                }
            }
        }
    }

    /// The ids of the notes whose last status is `Pending`, in stored order.
    pub fn get_pending_notes(&self) -> (r: Vec<String>)
        ensures
            r@.len() == entries_with(self.note_sync@, SyncStatus::Pending).len(),
            forall|i: int| 0 <= i < r@.len() ==> (#[trigger] r@[i])@
                == entries_with(self.note_sync@, SyncStatus::Pending)[i].note_id@,
    {
        let ghost pred = status_pred(SyncStatus::Pending);
        let mut out: Vec<String> = Vec::new();
        let mut i: usize = 0;
        while i < self.note_sync.len()
            invariant
                i <= self.note_sync@.len(),
                pred == status_pred(SyncStatus::Pending),
                out@.len() == self.note_sync@.take(i as int).filter(pred).len(),
                forall|k: int| 0 <= k < out@.len() ==> (#[trigger] out@[k])@
                    == self.note_sync@.take(i as int).filter(pred)[k].note_id@,
            decreases self.note_sync@.len() - i,
        {
            proof {
                let rows = self.note_sync@;
                assert(rows.take(i + 1) == rows.take(i as int).push(rows[i as int]));
                rows.take(i as int).lemma_filter_push(rows[i as int], pred);
            }
            if self.note_sync[i].last_sync_status == SyncStatus::Pending {
                out.push(self.note_sync[i].note_id.clone());
            }
            i = i + 1;
        }
        proof {
            assert(self.note_sync@.take(self.note_sync@.len() as int) == self.note_sync@);
        }
        out
    }

    /// How many notes have `status` as their last status.
    pub fn count_by_status(&self, status: SyncStatus) -> (r: u64)
        ensures
            r == entries_with(self.note_sync@, status).len(),
    {
        let ghost pred = status_pred(status);
        let mut n: u64 = 0;
        let mut i: usize = 0;
        while i < self.note_sync.len()
            invariant
                i <= self.note_sync@.len(),
                pred == status_pred(status),
                n == self.note_sync@.take(i as int).filter(pred).len(),
            decreases self.note_sync@.len() - i,
        {
            proof {
                let rows = self.note_sync@;
                assert(rows.take(i + 1) == rows.take(i as int).push(rows[i as int]));
                rows.take(i as int).lemma_filter_push(rows[i as int], pred);
                rows.take(i as int).lemma_filter_len(pred);
            }
            if self.note_sync[i].last_sync_status == status {
                n = n + 1;
            }
            i = i + 1;
        }
        proof {
            assert(self.note_sync@.take(self.note_sync@.len() as int) == self.note_sync@);
        }
        n
    }
}

/// Sync state shown to the user.
#[derive(Debug, Clone)]
pub struct SyncStatusDisplay {
    pub is_enabled: bool,
    pub is_syncing: bool,
    pub last_sync_at: Option<i64>,
    pub last_error: Option<String>,
    pub pending_notes: u64,
    pub conflict_count: u64,
    pub client_id: Option<String>,
    pub sync_endpoint: Option<String>,
}

impl SyncStatusDisplay {
    /// Nothing enabled, nothing pending.
    pub fn default() -> (r: SyncStatusDisplay)
        ensures
            !r.is_enabled,
            !r.is_syncing,
            r.last_sync_at is None,
            r.last_error is None,
            r.pending_notes == 0,
            r.conflict_count == 0,
            r.client_id is None,
            r.sync_endpoint is None,
    {
        SyncStatusDisplay {
            is_enabled: false,
            is_syncing: false,
            last_sync_at: None,
            last_error: None,
            pending_notes: 0,
            conflict_count: 0,
            client_id: None,
            sync_endpoint: None,
        }
    }
}

/// Credentials shared between devices: base64 of the JSON object
/// `{"endpoint", "apiKey", "clientId", "salt"?}`, the salt being the base64
/// of the key-derivation salt that the devices must share.
#[derive(Debug, Clone)]
pub struct SyncCredentials {
    pub endpoint: String,
    pub api_key: String,
    pub client_id: String,
    pub salt: Option<String>,
}

/// The JSON text of credentials; the salt member is left out when absent.
pub open spec fn credentials_json(c: SyncCredentials) -> Seq<char> {
    "{\"endpoint\":"@ + json_string_literal(c.endpoint@) + ",\"apiKey\":"@ + json_string_literal(c.api_key@)
        + ",\"clientId\":"@ + json_string_literal(c.client_id@) + match c.salt {
        Some(s) => ",\"salt\":"@ + json_string_literal(s@),
        None => Seq::empty(),
    } + "}"@
}

/// The JSON text that a shared credentials string decodes to, if any.
pub open spec fn credentials_doc(encoded: Seq<char>) -> Option<Seq<char>> {
    match base64_bytes(encoded) {
        Some(b) => if valid_utf8(b) { Some(decode_utf8(b)) } else { None },
        None => None,
    }
}

impl SyncCredentials {
    /// Credentials without a salt.
    pub fn new(endpoint: String, api_key: String, client_id: String) -> (r: SyncCredentials)
        ensures
            r.endpoint == endpoint,
            r.api_key == api_key,
            r.client_id == client_id,
            r.salt is None,
    {
        SyncCredentials { endpoint, api_key, client_id, salt: None }
    }

    /// The shareable form: base64 of the UTF-8 JSON text.
    pub fn to_base64(&self) -> (r: String)
        ensures
            r@ == base64_text(encode_utf8(credentials_json(*self))),
            credentials_doc(r@) == Some(credentials_json(*self)),
    {
        let mut json = "{\"endpoint\":".to_string();
        json.append(json_quote(self.endpoint.as_str()).as_str());
        json.append(",\"apiKey\":");
        json.append(json_quote(self.api_key.as_str()).as_str());
        json.append(",\"clientId\":");
        json.append(json_quote(self.client_id.as_str()).as_str());
        match &self.salt {
            Some(s) => {
                json.append(",\"salt\":");
                json.append(json_quote(s.as_str()).as_str());
            },
            None => {},
        }
        json.append("}");
        assert(json@ == credentials_json(*self));
        proof {
            broadcast use encode_utf8_valid_utf8, encode_utf8_decode_utf8;
        }
        let text = json.as_str();
        let r = base64_encode(text.as_bytes());
        assert(text@ == json@);
        r
    }

    /// Reads the shareable form. Fails when the text is not base64, the
    /// bytes are not UTF-8, or `endpoint`, `apiKey` or `clientId` is not a
    /// string member of the JSON object; `salt` is optional.
    pub fn from_base64(encoded: &str) -> (r: Result<SyncCredentials, String>)
        ensures
            r is Ok <==> credentials_doc(encoded@) is Some && {
                let doc = credentials_doc(encoded@)->0;
                &&& json_text_field(doc, "endpoint"@) is Some
                &&& json_text_field(doc, "apiKey"@) is Some
                &&& json_text_field(doc, "clientId"@) is Some
            },
            r is Ok ==> {
                let doc = credentials_doc(encoded@)->0;
                let c = r->Ok_0;
                &&& Some(c.endpoint@) == json_text_field(doc, "endpoint"@)
                &&& Some(c.api_key@) == json_text_field(doc, "apiKey"@)
                &&& Some(c.client_id@) == json_text_field(doc, "clientId"@)
                &&& opt_str_view(c.salt) == json_text_field(doc, "salt"@)
            },
    {
        let bytes = match base64_decode(encoded) {
            Some(b) => b,
            None => return Err("Credentials are not valid base64".to_string()),
        };
        let json = match utf8_decode(bytes) {
            Some(j) => j,
            None => return Err("Credentials are not valid UTF-8".to_string()),
        };
        let doc = json.as_str();
        let endpoint = match json_field(doc, "endpoint") {
            Some(v) => v,
            None => return Err("Credentials lack an endpoint".to_string()),
        };
        let api_key = match json_field(doc, "apiKey") {
            Some(v) => v,
            None => return Err("Credentials lack an API key".to_string()),
        };
        let client_id = match json_field(doc, "clientId") {
            Some(v) => v,
            None => return Err("Credentials lack a client id".to_string()),
        };
        let salt = json_field(doc, "salt");
        Ok(SyncCredentials { endpoint, api_key, client_id, salt })
    }
}

} // verus!
