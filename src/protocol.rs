//! Wire types of the sync protocol shared by the client and the relay.
//! Timestamps are milliseconds since the Unix epoch (UTC).
use vstd::prelude::*;

verus! {

/// The view of an optional string.
pub open spec fn opt_str_view(o: Option<String>) -> Option<Seq<char>> {
    match o {
        Some(s) => Some(s@),
        None => None,
    }
}

/// The views of a vector of strings.
pub open spec fn strs_view(v: Vec<String>) -> Seq<Seq<char>> {
    v@.map_values(|s: String| s@)
}

/// Copies a vector of strings.
pub fn clone_strings(v: &Vec<String>) -> (r: Vec<String>)
    ensures
        strs_view(r) == strs_view(*v),
{
    let mut r: Vec<String> = Vec::new();
    let mut i: usize = 0;
    while i < v.len()
        invariant
            i <= v@.len(),
            r@.len() == i,
            forall|j: int| 0 <= j < i ==> r@[j]@ == v@[j]@,
        decreases v@.len() - i,
    {
        r.push(v[i].clone());
        i = i + 1;
    }
    assert(strs_view(r) =~= strs_view(*v));
    r
}

/// Copies an optional string.
pub fn clone_opt_str(o: &Option<String>) -> (r: Option<String>)
    ensures
        r == *o,
        opt_str_view(r) == opt_str_view(*o),
{
    match o {
        Some(s) => Some(s.clone()),
        None => None,
    }
}

/// Whether no other note of `notes` carries the id of the `i`-th.
pub open spec fn unique_in(notes: Seq<SyncNote>, i: int) -> bool {
    forall|j: int| 0 <= j < notes.len() && j != i ==> (#[trigger] notes[j]).id@ != notes[i].id@
}

/// Metadata of an attachment that rides along with its note.
#[derive(Debug, Clone)]
pub struct AttachmentRef {
    pub id: String,
    /// Encrypted file name.
    pub filename: String,
    pub mime_type: String,
    pub size: i64,
    /// Reference to the attachment's data.
    pub data: String,
}

pub struct AttachmentRefView {
    pub id: Seq<char>,
    pub filename: Seq<char>,
    pub mime_type: Seq<char>,
    pub size: i64,
    pub data: Seq<char>,
}

impl View for AttachmentRef {
    type V = AttachmentRefView;

    open spec fn view(&self) -> AttachmentRefView {
        AttachmentRefView {
            id: self.id@,
            filename: self.filename@,
            mime_type: self.mime_type@,
            size: self.size,
            data: self.data@,
        }
    }
}

impl AttachmentRef {
    /// A copy of this reference.
    pub fn duplicate(&self) -> (r: AttachmentRef)
        ensures
            r@ == self@,
    {
        AttachmentRef {
            id: self.id.clone(),
            filename: self.filename.clone(),
            mime_type: self.mime_type.clone(),
            size: self.size,
            data: self.data.clone(),
        }
    }
}

/// The views of a vector of attachment references.
pub open spec fn refs_view(v: Vec<AttachmentRef>) -> Seq<AttachmentRefView> {
    v@.map_values(|a: AttachmentRef| a@)
}

/// Copies a vector of attachment references.
pub fn clone_refs(v: &Vec<AttachmentRef>) -> (r: Vec<AttachmentRef>)
    ensures
        refs_view(r) == refs_view(*v),
{
    let mut r: Vec<AttachmentRef> = Vec::new();
    let mut i: usize = 0;
    while i < v.len()
        invariant
            i <= v@.len(),
            r@.len() == i,
            forall|j: int| 0 <= j < i ==> r@[j]@ == v@[j]@,
        decreases v@.len() - i,
    {
        r.push(v[i].duplicate());
        i = i + 1;
    }
    assert(refs_view(r) =~= refs_view(*v));
    r
}

/// A note as it travels between client and relay: content and each tag
/// are serialized envelopes, opaque to the relay.
#[derive(Debug, Clone)]
pub struct SyncNote {
    pub id: String,
    pub created_at: i64,
    pub modified_at: i64,
    pub content: String,
    pub tags: Vec<String>,
    pub attachments: Vec<AttachmentRef>,
    pub pinned: bool,
    pub deleted: bool,
    pub deleted_at: Option<i64>,
    pub version: i64,
    pub word_wrap: Option<bool>,
    pub syntax_language: Option<String>,
}

pub struct SyncNoteView {
    pub id: Seq<char>,
    pub created_at: i64,
    pub modified_at: i64,
    pub content: Seq<char>,
    pub tags: Seq<Seq<char>>,
    pub attachments: Seq<AttachmentRefView>,
    pub pinned: bool,
    pub deleted: bool,
    pub deleted_at: Option<i64>,
    pub version: i64,
    pub word_wrap: Option<bool>,
    pub syntax_language: Option<Seq<char>>,
}

impl View for SyncNote {
    type V = SyncNoteView;

    open spec fn view(&self) -> SyncNoteView {
        SyncNoteView {
            id: self.id@,
            created_at: self.created_at,
            modified_at: self.modified_at,
            content: self.content@,
            tags: strs_view(self.tags),
            attachments: refs_view(self.attachments),
            pinned: self.pinned,
            deleted: self.deleted,
            deleted_at: self.deleted_at,
            version: self.version,
            word_wrap: self.word_wrap,
            syntax_language: opt_str_view(self.syntax_language),
        }
    }
}

impl SyncNote {
    /// A copy of this note.
    pub fn duplicate(&self) -> (r: SyncNote)
        ensures
            r@ == self@,
    {
        SyncNote {
            id: self.id.clone(),
            created_at: self.created_at,
            modified_at: self.modified_at,
            content: self.content.clone(),
            tags: clone_strings(&self.tags),
            attachments: clone_refs(&self.attachments),
            pinned: self.pinned,
            deleted: self.deleted,
            deleted_at: self.deleted_at,
            version: self.version,
            word_wrap: self.word_wrap,
            syntax_language: clone_opt_str(&self.syntax_language),
        }
    }
}

/// Attachment data in transit: base64 of the encrypted blob.
#[derive(Debug, Clone)]
pub struct SyncAttachment {
    pub id: String,
    pub data: String,
}

/// What a client pushes.
#[derive(Debug, Clone)]
pub struct SyncPushRequest {
    pub notes: Vec<SyncNote>,
    pub attachments: Vec<SyncAttachment>,
}

/// A write the relay accepted.
#[derive(Debug, Clone)]
pub struct SyncAccepted {
    pub id: String,
    pub server_version: u64,
    pub synced_at: i64,
}

/// A write the relay rejected because its copy is newer.
#[derive(Debug, Clone)]
pub struct SyncRejected {
    pub id: String,
    pub reason: String,
    pub server_modified_at: i64,
}

/// The relay's answer to a push.
#[derive(Debug, Clone)]
pub struct SyncPushResponse {
    pub accepted: Vec<SyncAccepted>,
    pub rejected: Vec<SyncRejected>,
    pub errors: Vec<String>,
}

/// What a client asks for when it pulls.
#[derive(Debug, Clone)]
pub struct SyncPullRequest {
    pub last_sync_at: Option<i64>,
    pub known_note_ids: Vec<String>,
}

/// A server-initiated tombstone.
#[derive(Debug, Clone)]
pub struct SyncDeletion {
    pub id: String,
    pub deleted_at: i64,
}

/// The relay's answer to a pull.
#[derive(Debug, Clone)]
pub struct SyncPullResponse {
    pub notes: Vec<SyncNote>,
    pub deletions: Vec<SyncDeletion>,
    pub attachments: Vec<SyncAttachment>,
    pub synced_at: i64,
}

/// The relay's status for one client.
#[derive(Debug, Clone)]
pub struct SyncStatusResponse {
    pub client_id: String,
    pub server_last_modified: i64,
    pub note_count: u64,
    pub last_synced_at: Option<i64>,
}

/// Kind of device registering with the relay.
#[derive(Debug, Clone, Copy, PartialEq, Eq, Structural)]
pub enum DeviceType {
    Web,
    Cli,
}

impl DeviceType {
    /// The wire name of the device type.
    pub fn as_str(&self) -> (r: &'static str)
        ensures
            r@ == device_type_name(*self),
    {
        match self {
            DeviceType::Web => "web",
            DeviceType::Cli => "cli",
        }
    }
}

pub open spec fn device_type_name(d: DeviceType) -> Seq<char> {
    match d {
        DeviceType::Web => "web"@,
        DeviceType::Cli => "cli"@,
    }
}

/// Registration request of a new device.
#[derive(Debug, Clone)]
pub struct AuthRegisterRequest {
    pub device_name: String,
    pub device_type: DeviceType,
}

/// Registration answer: the raw API key is returned once.
#[derive(Debug, Clone)]
pub struct AuthRegisterResponse {
    pub api_key: String,
    pub client_id: String,
    pub created_at: i64,
}

} // verus!
