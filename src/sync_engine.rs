//! The client side of one reconciliation cycle. The caller performs the
//! network requests; these functions decide what to send and how to apply
//! what comes back:
//! 1. `push_set` and `build_push_request` encrypt the notes changed since
//!    the last sync for transport;
//! 2. `apply_pull` merges the relay's change set by last-write-wins and
//!    removes the ids the relay lists as deleted;
//! 3. `finish_sync` records the relay's `synced_at` as the new cursor.
//! A failed request or decryption aborts the cycle before step 3, so the
//! cursor only advances after a complete cycle.
use vstd::prelude::*;
use vstd::utf8::*;

use crate::crypto::{AES_GCM_MAX_PLAINTEXT, CryptoService, EncryptedData, envelope_json, opened_json_text, seals};
use crate::error::Error;
use crate::note::{Note, SyntaxLanguage, syntax_language_name};
use crate::protocol::{
    unique_in, AttachmentRef, SyncDeletion, SyncNote, SyncPullResponse, SyncPushRequest, opt_str_view,
};
use crate::store::{
    StoredNote, has_note, listed, modified_after, modified_of, note_fits, note_index, opens_all, opens_note, replica_version,
    row_of, row_opens, stores_note,
};
use crate::vault::Vault;

verus! {

/// Whether `s` is the transport form of `note` under `key`: the same clear
/// fields, and content and each tag sealed under `key` and serialized as
/// JSON.
pub open spec fn transports(key: Seq<u8>, note: Note, s: SyncNote) -> bool {
    &&& s.id@ == note.id@
    &&& s.created_at == note.created_at
    &&& s.modified_at == note.modified_at
    &&& s.pinned == note.pinned
    &&& s.deleted == note.deleted
    &&& s.deleted_at == note.deleted_at
    &&& s.version == note.version
    &&& s.word_wrap == Some(note.word_wrap)
    &&& opt_str_view(s.syntax_language) == Some(syntax_language_name(note.syntax_language))
    &&& s.attachments@.len() == note.attachments@.len()
    &&& forall|k: int| 0 <= k < s.attachments@.len() ==> #[trigger] ref_of(s.attachments@[k], note.attachments@[k])
    &&& (exists|e: EncryptedData| #[trigger] envelope_json(e) == s.content@ && seals(key, encode_utf8(note.content@), e))
    &&& s.tags@.len() == note.tags@.len()
    &&& forall|i: int| 0 <= i < s.tags@.len() ==> exists|e: EncryptedData|
        #[trigger] envelope_json(e) == (#[trigger] s.tags@[i])@ && seals(key, encode_utf8(note.tags@[i]@), e)
}

/// Whether a transported reference carries an attachment's id, encrypted
/// file name, MIME type, size and data reference.
pub open spec fn ref_of(r: AttachmentRef, a: crate::note::Attachment) -> bool {
    r.id@ == a.id@ && r.filename@ == a.filename@ && r.mime_type@ == a.mime_type@ && r.size == a.size && r.data@ == a.data@
}

/// The transport form of a note: content and each tag encrypted under
/// `key` and serialized as JSON; attachment references carry the
/// (already encrypted) file name.
pub fn to_sync_note(note: &Note, key: &[u8; 32]) -> (r: Result<SyncNote, Error>)
    ensures
        r is Ok <==> note_fits(*note),
        match r {
            Ok(s) => transports(key@, *note, s),
            Err(e) => e == Error::EncryptionFailed,
        },
{
    let crypto = CryptoService::new();
    let content = crypto.encrypt_text(note.content.as_str(), key)?;
    let content_json = content.to_json();
    let mut tags: Vec<String> = Vec::new();
    let mut i: usize = 0;
    while i < note.tags.len()
        invariant
            i <= note.tags@.len(),
            tags@.len() == i,
            forall|j: int| 0 <= j < i ==> exists|e: EncryptedData|
                #[trigger] envelope_json(e) == (#[trigger] tags@[j])@ && seals(key@, encode_utf8(note.tags@[j]@), e),
            encode_utf8(note.content@).len() <= crate::crypto::AES_GCM_MAX_PLAINTEXT,
            forall|j: int| 0 <= j < i ==> encode_utf8((#[trigger] note.tags@[j])@).len() <= crate::crypto::AES_GCM_MAX_PLAINTEXT,
        decreases note.tags@.len() - i,
    {
        let t = crypto.encrypt_text(note.tags[i].as_str(), key)?;
        let tj = t.to_json();
        tags.push(tj);
        proof {
            assert(envelope_json(t) == tags@[i as int]@);
        }
        i = i + 1;
    }
    let mut attachments: Vec<AttachmentRef> = Vec::new();
    let mut k: usize = 0;
    while k < note.attachments.len()
        invariant
            k <= note.attachments@.len(),
            attachments@.len() == k,
            forall|j: int| 0 <= j < k ==> #[trigger] ref_of(attachments@[j], note.attachments@[j]),
        decreases note.attachments@.len() - k,
    {
        let a = &note.attachments[k];
        attachments.push(AttachmentRef {
            id: a.id.clone(),
            filename: a.filename.clone(),
            mime_type: a.mime_type.clone(),
            size: a.size,
            data: a.data.clone(),
        });
        k = k + 1;
    }
    let s = SyncNote {
        id: note.id.clone(),
        created_at: note.created_at,
        modified_at: note.modified_at,
        content: content_json,
        tags,
        attachments,
        pinned: note.pinned,
        deleted: note.deleted,
        deleted_at: note.deleted_at,
        version: note.version,
        word_wrap: Some(note.word_wrap),
        syntax_language: Some(note.syntax_language.as_str().to_string()),
    };
    assert(envelope_json(content) == s.content@);
    Ok(s)
}

/// Whether a pulled note overwrites the local store: its id is absent, or
/// it is strictly newer than the local copy.
pub open spec fn remote_wins(rows: Seq<StoredNote>, remote: SyncNote) -> bool {
    match row_of(rows, remote.id@) {
        None => true,
        Some(r) => remote.modified_at > r.modified_at,
    }
}

/// Whether a pulled note's content and tags open under `key`.
pub open spec fn remote_opens(key: Seq<u8>, remote: SyncNote) -> bool {
    &&& opened_json_text(key, remote.content@) is Some
    &&& forall|i: int| 0 <= i < remote.tags@.len() ==> (#[trigger] opened_json_text(key, remote.tags@[i]@)) is Some
}

/// Whether the decrypted content and tags of a pulled note can be
/// encrypted again for storage.
pub open spec fn remote_fits(key: Seq<u8>, remote: SyncNote) -> bool {
    &&& encode_utf8(opened_json_text(key, remote.content@)->0).len() <= AES_GCM_MAX_PLAINTEXT
    &&& forall|i: int| 0 <= i < remote.tags@.len() ==> encode_utf8(
        (#[trigger] opened_json_text(key, remote.tags@[i]@))->0,
    ).len() <= AES_GCM_MAX_PLAINTEXT
}

/// Whether `row` holds a pulled note: its times and flags, and its content
/// and tags decrypted and sealed again under `key`.
pub open spec fn holds_remote(key: Seq<u8>, row: StoredNote, remote: SyncNote) -> bool {
    &&& row.id@ == remote.id@
    &&& row.modified_at == remote.modified_at
    &&& row.pinned == remote.pinned
    &&& row.deleted == remote.deleted
    &&& row.deleted_at == remote.deleted_at
    &&& seals(key, encode_utf8(opened_json_text(key, remote.content@)->0), row.content)
    &&& row.tags@.len() == remote.tags@.len()
    &&& forall|i: int| 0 <= i < row.tags@.len() ==> seals(
        key,
        encode_utf8(opened_json_text(key, remote.tags@[i]@)->0),
        #[trigger] row.tags@[i],
    )
}

/// Whether every stored version can take `n` more increments.
pub open spec fn versions_below(rows: Seq<StoredNote>, n: nat) -> bool {
    forall|i: int| 0 <= i < rows.len() ==> (#[trigger] rows[i]).version + n < i64::MAX
}

/// Whether every pulled version stays `n` increments below the limit.
pub open spec fn remote_versions_below(notes: Seq<SyncNote>, n: nat) -> bool {
    forall|i: int| 0 <= i < notes.len() ==> (#[trigger] notes[i]).version + n < i64::MAX
}

/// Whether every version in `after` is `v` or at most one above some
/// version in `before`.
#[verifier::opaque]
pub open spec fn versions_grow(before: Seq<StoredNote>, after: Seq<StoredNote>, v: i64) -> bool {
    forall|i: int| 0 <= i < after.len() ==> (#[trigger] after[i]).version == v || exists|j: int|
        0 <= j < before.len() && (after[i].version == before[j].version || after[i].version == before[j].version + 1)
}

proof fn lemma_versions_grow_refl(rows: Seq<StoredNote>, v: i64)
    ensures
        versions_grow(rows, rows, v),
{
    reveal(versions_grow);
    assert forall|i: int| 0 <= i < rows.len() implies (#[trigger] rows[i]).version == v || exists|j: int|
        0 <= j < rows.len() && (rows[i].version == rows[j].version || rows[i].version == rows[j].version + 1) by {
        assert(rows[i].version == rows[i].version);
    }
}

proof fn lemma_versions_below_step(before: Seq<StoredNote>, after: Seq<StoredNote>, v: i64, m: nat)
    requires
        versions_below(before, m + 1),
        versions_grow(before, after, v),
        v + m < i64::MAX,
    ensures
        versions_below(after, m),
{
    reveal(versions_grow);
    assert forall|k: int| 0 <= k < after.len() implies (#[trigger] after[k]).version + m < i64::MAX by {
        if after[k].version != v {
            let j = choose|j: int| 0 <= j < before.len() && (after[k].version == before[j].version
                || after[k].version == before[j].version + 1);
            assert(before[j].version + (m + 1) < i64::MAX);
        }
    }
}

/// Whether `note` carries the decrypted content and tags of `remote`.
pub open spec fn decrypts_to(key: Seq<u8>, remote: SyncNote, note: Note) -> bool {
    &&& opened_json_text(key, remote.content@) == Some(note.content@)
    &&& note.tags@.len() == remote.tags@.len()
    &&& forall|i: int| 0 <= i < note.tags@.len() ==> opened_json_text(key, remote.tags@[i]@) == Some((#[trigger] note.tags@[i])@)
}

proof fn lemma_fits_iff(key: Seq<u8>, remote: SyncNote, note: Note)
    requires
        decrypts_to(key, remote, note),
    ensures
        note_fits(note) <==> remote_fits(key, remote),
{
    if note_fits(note) {
        assert forall|i: int| 0 <= i < remote.tags@.len() implies encode_utf8(
            (#[trigger] opened_json_text(key, remote.tags@[i]@))->0,
        ).len() <= AES_GCM_MAX_PLAINTEXT by {
            assert(encode_utf8(note.tags@[i]@).len() <= AES_GCM_MAX_PLAINTEXT);
        }
    }
    if remote_fits(key, remote) {
        assert forall|i: int| 0 <= i < note.tags@.len() implies encode_utf8((#[trigger] note.tags@[i])@).len()
            <= AES_GCM_MAX_PLAINTEXT by {
            assert(opened_json_text(key, remote.tags@[i]@) == Some(note.tags@[i]@));
        }
    }
}

proof fn lemma_holds(key: Seq<u8>, row: StoredNote, note: Note, remote: SyncNote)
    requires
        decrypts_to(key, remote, note),
        stores_note(key, row, note),
        note.id@ == remote.id@,
        note.modified_at == remote.modified_at,
        note.pinned == remote.pinned,
        note.deleted == remote.deleted,
        note.deleted_at == remote.deleted_at,
    ensures
        holds_remote(key, row, remote),
{
    assert forall|i: int| 0 <= i < row.tags@.len() implies seals(
        key,
        encode_utf8(opened_json_text(key, remote.tags@[i]@)->0),
        #[trigger] row.tags@[i],
    ) by {
        assert(opened_json_text(key, remote.tags@[i]@) == Some(note.tags@[i]@));
    }
}

/// Whether the relay lists `id` among its deletions.
pub open spec fn deleted_by(deletions: Seq<SyncDeletion>, id: Seq<char>) -> bool {
    exists|k: int| 0 <= k < deletions.len() && (#[trigger] deletions[k]).id@ == id
}

/// The text of every tag of a pulled note, decrypted.
fn open_remote_tags(crypto: &CryptoService, remote: &SyncNote, key: &[u8; 32]) -> (r: Result<Vec<String>, Error>)
    ensures
        match r {
            Ok(tags) => tags@.len() == remote.tags@.len() && forall|i: int|
                0 <= i < tags@.len() ==> opened_json_text(key@, remote.tags@[i]@) == Some(#[trigger] tags@[i]@),
            Err(e) => e == Error::AuthenticationFailed && exists|i: int|
                0 <= i < remote.tags@.len() && (#[trigger] opened_json_text(key@, remote.tags@[i]@)) is None,
        },
{
    let mut tags: Vec<String> = Vec::new();
    let mut i: usize = 0;
    while i < remote.tags.len()
        invariant
            i <= remote.tags@.len(),
            tags@.len() == i,
            forall|j: int| 0 <= j < i ==> opened_json_text(key@, remote.tags@[j]@) == Some(#[trigger] tags@[j]@),
        decreases remote.tags@.len() - i,
    {
        match crypto.decrypt_json_text(remote.tags[i].as_str(), key) {
            Ok(t) => tags.push(t),
            Err(e) => {
                return Err(e);
            },
        }
        i = i + 1;
    }
    Ok(tags)
}

impl Vault {
    /// Applies one pulled note by last-write-wins: it is inserted (with its
    /// creation time and version) when its id is absent, overwrites the
    /// replicated fields of the local copy when strictly newer, and is
    /// ignored otherwise (equal times keep the local copy). Content and tags
    /// are decrypted first; a failure there is `AuthenticationFailed`.
    /// Returns whether the store changed; on any error it is unchanged.
    #[verifier::rlimit(80)]
    pub fn apply_remote_note(&mut self, remote: &SyncNote) -> (r: Result<bool, Error>)
        requires
            old(self).wf(),
            versions_below(old(self).store.notes@, 1),
        ensures
            final(self).wf(),
            final(self).store.key == old(self).store.key,
            final(self).sync == old(self).sync,
            final(self).encryption == old(self).encryption,
            final(self).key_check == old(self).key_check,
            final(self).settings == old(self).settings,
            final(self).container_salt == old(self).container_salt,
            r is Err ==> *final(self) == *old(self),
            r is Ok <==> old(self).store.key is Some && remote_opens(old(self).store.key->0@, *remote)
                && (remote_wins(old(self).store.notes@, *remote) ==> remote_fits(old(self).store.key->0@, *remote)),
            r is Err ==> if old(self).store.key is None {
                r->Err_0 == Error::KeyRequired
            } else if !remote_opens(old(self).store.key->0@, *remote) {
                r->Err_0 == Error::AuthenticationFailed
            } else {
                r->Err_0 == Error::EncryptionFailed
            },
            r is Ok ==> (r->Ok_0 <==> remote_wins(old(self).store.notes@, *remote)),
            r == Ok::<bool, Error>(false) ==> *final(self) == *old(self),
            r == Ok::<bool, Error>(true) ==> {
                let row = row_of(final(self).store.notes@, remote.id@);
                &&& row is Some
                &&& holds_remote(old(self).store.key->0@, row->0, *remote)
                &&& row_of(old(self).store.notes@, remote.id@) is None ==> row->0.created_at == remote.created_at
                    && row->0.version == replica_version(remote.version)
            },
            forall|id: Seq<char>| id != remote.id@ ==> #[trigger] row_of(final(self).store.notes@, id)
                == row_of(old(self).store.notes@, id),
            r is Ok ==> modified_of(final(self).store.notes@, remote.id@) is Some
                && modified_of(final(self).store.notes@, remote.id@)->0 >= remote.modified_at,
            modified_of(old(self).store.notes@, remote.id@) is Some ==> modified_of(final(self).store.notes@, remote.id@) is Some
                && modified_of(final(self).store.notes@, remote.id@)->0 >= modified_of(old(self).store.notes@, remote.id@)->0,
            r is Ok ==> versions_grow(old(self).store.notes@, final(self).store.notes@, replica_version(remote.version)),
    {
        let key = match &self.store.key {
            Some(k) => *k,
            None => return Err(Error::KeyRequired),
        };
        let crypto = CryptoService::new();
        let content = match crypto.decrypt_json_text(remote.content.as_str(), &key) {
            Ok(c) => c,
            Err(e) => return Err(e),
        };
        let tags = match open_remote_tags(&crypto, remote, &key) {
            Ok(t) => t,
            Err(e) => return Err(e),
        };
        assert(remote_opens(key@, *remote)) by {
            assert forall|i: int| 0 <= i < remote.tags@.len() implies (#[trigger] opened_json_text(key@, remote.tags@[i]@)) is Some by {
                assert(opened_json_text(key@, remote.tags@[i]@) == Some(tags@[i]@));
            }
        }
        let ghost old_rows = self.store.notes@;
        let word_wrap = match remote.word_wrap {
            Some(w) => w,
            None => true,
        };
        match self.store.index_of(&remote.id) {
            None => {
                let mut note = Note::with_id(remote.id.clone(), content, remote.created_at);
                note.modified_at = remote.modified_at;
                note.tags = tags;
                note.pinned = remote.pinned;
                note.deleted = remote.deleted;
                note.deleted_at = remote.deleted_at;
                note.version = remote.version;
                note.word_wrap = word_wrap;
                match &remote.syntax_language {
                    Some(l) => {
                        note.syntax_language = SyntaxLanguage::parse_or_plain(l.as_str());
                    },
                    None => {},
                }
                proof {
                    assert(decrypts_to(key@, *remote, note));
                    lemma_fits_iff(key@, *remote, note);
                }
                match self.store.insert_replica(&note) {
                    Ok(()) => {},
                    Err(e) => return Err(e),
                }
                proof {
                    let rows = self.store.notes@;
                    let n = rows.len() - 1;
                    crate::store::lemma_note_at(rows, remote.id@, n);
                    lemma_holds(key@, rows[n], note, *remote);
                    reveal(versions_grow);
                    assert forall|i: int| 0 <= i < rows.len() implies (#[trigger] rows[i]).version == replica_version(remote.version)
                        || exists|j: int| 0 <= j < old_rows.len() && (rows[i].version == old_rows[j].version
                            || rows[i].version == old_rows[j].version + 1) by {
                        if i < n {
                            assert(rows[i] == old_rows[i]);
                        }
                    }
                }
                Ok(true)
            },
            Some(idx) => {
                if remote.modified_at <= self.store.notes[idx].modified_at {
                    proof {
                        lemma_versions_grow_refl(old_rows, replica_version(remote.version));
                    }
                    return Ok(false);
                }
                let row = &self.store.notes[idx];
                let note = Note {
                    id: row.id.clone(),
                    created_at: row.created_at,
                    modified_at: remote.modified_at,
                    synced_at: row.synced_at,
                    content,
                    tags,
                    attachments: crate::store::clone_attachments(&row.attachments),
                    pinned: remote.pinned,
                    deleted: remote.deleted,
                    deleted_at: remote.deleted_at,
                    sync_hash: crate::protocol::clone_opt_str(&row.sync_hash),
                    version: row.version,
                    word_wrap,
                    syntax_language: match &remote.syntax_language {
                        Some(l) => SyntaxLanguage::parse_or_plain(l.as_str()),
                        None => row.syntax_language,
                    },
                };
                proof {
                    assert(decrypts_to(key@, *remote, note));
                    lemma_fits_iff(key@, *remote, note);
                    assert(old_rows[idx as int].version + 1 < i64::MAX);
                }
                match self.store.update(&note) {
                    Ok(()) => {},
                    Err(e) => return Err(e),
                }
                proof {
                    let rows = self.store.notes@;
                    let i = note_index(old_rows, remote.id@);
                    assert(i == idx);
                    crate::store::lemma_note_at(rows, remote.id@, i);
                    lemma_holds(key@, rows[i], Note { created_at: old_rows[i].created_at, ..note }, *remote);
                    reveal(versions_grow);
                    assert forall|k: int| 0 <= k < rows.len() implies (#[trigger] rows[k]).version == replica_version(remote.version)
                        || exists|j: int| 0 <= j < old_rows.len() && (rows[k].version == old_rows[j].version
                            || rows[k].version == old_rows[j].version + 1) by {
                        if k != i {
                            assert(rows[k] == old_rows[k]);
                        } else {
                            assert(rows[k].version == old_rows[i].version + 1);
                        }
                    }
                }
                Ok(true)
            },
        }
    }

    /// Applies a pull response: each note by last-write-wins, in order, then
    /// the relay's deletions, which remove local rows for good. Returns how
    /// many notes were inserted or overwritten plus how many rows were
    /// removed. It succeeds whenever the key is held and every pulled note
    /// decrypts (and fits again); a failure stops the cycle. Afterwards every
    /// pulled note that is not also deleted is held locally at least as new
    /// as the pulled copy, a pulled note that appears once and wins holds
    /// the pulled content, tags and flags, no deleted id is held, and no
    /// other note got older.
    #[verifier::rlimit(80)]
    pub fn apply_pull(&mut self, resp: &SyncPullResponse) -> (r: Result<u64, Error>)
        requires
            old(self).wf(),
            resp.notes@.len() + resp.deletions@.len() < i64::MAX,
            versions_below(old(self).store.notes@, resp.notes@.len() as nat),
            remote_versions_below(resp.notes@, resp.notes@.len() as nat),
        ensures
            final(self).wf(),
            final(self).store.key == old(self).store.key,
            final(self).sync == old(self).sync,
            final(self).encryption == old(self).encryption,
            final(self).container_salt == old(self).container_salt,
            old(self).store.key is Some && (forall|i: int| 0 <= i < resp.notes@.len() ==> remote_opens(
                old(self).store.key->0@,
                #[trigger] resp.notes@[i],
            ) && remote_fits(old(self).store.key->0@, resp.notes@[i])) ==> r is Ok,
            match r {
                Ok(count) => {
                    &&& count <= resp.notes@.len() + resp.deletions@.len()
                    &&& forall|i: int| 0 <= i < resp.notes@.len() && !deleted_by(resp.deletions@, resp.notes@[i].id@)
                        ==> modified_of(final(self).store.notes@, (#[trigger] resp.notes@[i]).id@) is Some
                        && modified_of(final(self).store.notes@, resp.notes@[i].id@)->0 >= resp.notes@[i].modified_at
                    &&& forall|i: int| 0 <= i < resp.notes@.len() && !deleted_by(resp.deletions@, resp.notes@[i].id@)
                        && unique_in(resp.notes@, i) && remote_wins(old(self).store.notes@, resp.notes@[i])
                        ==> row_of(final(self).store.notes@, (#[trigger] resp.notes@[i]).id@) is Some
                        && holds_remote(old(self).store.key->0@, row_of(final(self).store.notes@, resp.notes@[i].id@)->0, resp.notes@[i])
                    &&& forall|k: int| 0 <= k < resp.deletions@.len()
                        ==> modified_of(final(self).store.notes@, (#[trigger] resp.deletions@[k]).id@) is None
                    &&& forall|id: Seq<char>| modified_of(old(self).store.notes@, id) is Some && !deleted_by(resp.deletions@, id)
                        ==> #[trigger] modified_of(final(self).store.notes@, id) is Some
                        && modified_of(final(self).store.notes@, id)->0 >= modified_of(old(self).store.notes@, id)->0
                },
                Err(e) => if old(self).store.key is None {
                    e == Error::KeyRequired
                } else if e == Error::AuthenticationFailed {
                    exists|i: int| 0 <= i < resp.notes@.len() && !remote_opens(old(self).store.key->0@, #[trigger] resp.notes@[i])
                } else {
                    e == Error::EncryptionFailed && exists|i: int| 0 <= i < resp.notes@.len()
                        && !remote_fits(old(self).store.key->0@, #[trigger] resp.notes@[i])
                },
            },
    {
        let n = resp.notes.len();
        let mut count: u64 = 0;
        let mut i: usize = 0;
        while i < n
            invariant
                n == resp.notes@.len(),
                n + resp.deletions@.len() < i64::MAX,
                remote_versions_below(resp.notes@, n as nat),
                i <= n,
                count <= i,
                self.wf(),
                self.store.key == old(self).store.key,
                self.sync == old(self).sync,
                self.encryption == old(self).encryption,
                self.container_salt == old(self).container_salt,
                old(self).store.key is None ==> i == 0,
                versions_below(self.store.notes@, (n - i) as nat),
                forall|j: int| 0 <= j < i ==> modified_of(self.store.notes@, (#[trigger] resp.notes@[j]).id@) is Some
                    && modified_of(self.store.notes@, resp.notes@[j].id@)->0 >= resp.notes@[j].modified_at,
                forall|j: int| 0 <= j < i && unique_in(resp.notes@, j) && remote_wins(old(self).store.notes@, resp.notes@[j])
                    ==> row_of(self.store.notes@, (#[trigger] resp.notes@[j]).id@) is Some
                    && holds_remote(old(self).store.key->0@, row_of(self.store.notes@, resp.notes@[j].id@)->0, resp.notes@[j]),
                forall|id: Seq<char>| (forall|j: int| 0 <= j < i ==> (#[trigger] resp.notes@[j]).id@ != id)
                    ==> #[trigger] row_of(self.store.notes@, id) == row_of(old(self).store.notes@, id),
                forall|id: Seq<char>| modified_of(old(self).store.notes@, id) is Some
                    ==> #[trigger] modified_of(self.store.notes@, id) is Some
                    && modified_of(self.store.notes@, id)->0 >= modified_of(old(self).store.notes@, id)->0,
            decreases n - i,
        {
            let ghost before = self.store.notes@;
            let ghost rn = resp.notes@[i as int];
            let applied = match self.apply_remote_note(&resp.notes[i]) {
                Ok(a) => a,
                Err(e) => return Err(e),
            };
            if applied {
                count = count + 1;
            }
            proof {
                let rows = self.store.notes@;
                assert(rn.version + n < i64::MAX);
                lemma_versions_below_step(before, rows, replica_version(rn.version), (n - i - 1) as nat);
                assert forall|j: int| 0 <= j < i + 1 implies modified_of(rows, (#[trigger] resp.notes@[j]).id@) is Some
                    && modified_of(rows, resp.notes@[j].id@)->0 >= resp.notes@[j].modified_at by {
                    if j < i {
                        assert(modified_of(before, resp.notes@[j].id@) is Some);
                    }
                }
                if unique_in(resp.notes@, i as int) {
                    assert(forall|j: int| 0 <= j < i ==> (#[trigger] resp.notes@[j]).id@ != rn.id@);
                    assert(row_of(before, rn.id@) == row_of(old(self).store.notes@, rn.id@));
                }
                assert forall|j: int| 0 <= j < i + 1 && unique_in(resp.notes@, j) && remote_wins(old(self).store.notes@, resp.notes@[j])
                    implies row_of(rows, (#[trigger] resp.notes@[j]).id@) is Some
                    && holds_remote(old(self).store.key->0@, row_of(rows, resp.notes@[j].id@)->0, resp.notes@[j]) by {
                    if j < i {
                        assert(resp.notes@[j].id@ != rn.id@);
                        assert(row_of(rows, resp.notes@[j].id@) == row_of(before, resp.notes@[j].id@));
                    }
                }
                assert forall|id: Seq<char>| (forall|j: int| 0 <= j < i + 1 ==> (#[trigger] resp.notes@[j]).id@ != id)
                    implies #[trigger] row_of(rows, id) == row_of(old(self).store.notes@, id) by {
                    assert(resp.notes@[i as int].id@ != id);
                    assert(row_of(rows, id) == row_of(before, id));
                }
                assert forall|id: Seq<char>| modified_of(old(self).store.notes@, id) is Some
                    implies #[trigger] modified_of(rows, id) is Some
                    && modified_of(rows, id)->0 >= modified_of(old(self).store.notes@, id)->0 by {
                    assert(modified_of(before, id) is Some);
                }
            }
            i = i + 1;
        }
        let d = resp.deletions.len();
        let mut k: usize = 0;
        while k < d
            invariant
                n == resp.notes@.len(),
                d == resp.deletions@.len(),
                n + d < i64::MAX,
                k <= d,
                count <= n + k,
                self.wf(),
                self.store.key == old(self).store.key,
                self.sync == old(self).sync,
                self.encryption == old(self).encryption,
                self.container_salt == old(self).container_salt,
                old(self).store.key is None ==> n == 0 && k == 0,
                forall|j: int| 0 <= j < n && !deleted_by(resp.deletions@, resp.notes@[j].id@)
                    ==> modified_of(self.store.notes@, (#[trigger] resp.notes@[j]).id@) is Some
                    && modified_of(self.store.notes@, resp.notes@[j].id@)->0 >= resp.notes@[j].modified_at,
                forall|j: int| 0 <= j < n && !deleted_by(resp.deletions@, resp.notes@[j].id@)
                    && unique_in(resp.notes@, j) && remote_wins(old(self).store.notes@, resp.notes@[j])
                    ==> row_of(self.store.notes@, (#[trigger] resp.notes@[j]).id@) is Some
                    && holds_remote(old(self).store.key->0@, row_of(self.store.notes@, resp.notes@[j].id@)->0, resp.notes@[j]),
                forall|kk: int| 0 <= kk < k ==> modified_of(self.store.notes@, (#[trigger] resp.deletions@[kk]).id@) is None,
                forall|id: Seq<char>| modified_of(old(self).store.notes@, id) is Some && !deleted_by(resp.deletions@, id)
                    ==> #[trigger] modified_of(self.store.notes@, id) is Some
                    && modified_of(self.store.notes@, id)->0 >= modified_of(old(self).store.notes@, id)->0,
            decreases d - k,
        {
            let ghost before = self.store.notes@;
            let did = &resp.deletions[k].id;
            let present = self.store.modified_at_of(did).is_some();
            match self.store.hard_delete(did) {
                Ok(()) => {},
                Err(e) => return Err(e),
            }
            if present {
                count = count + 1;
            }
            proof {
                let rows = self.store.notes@;
                assert(deleted_by(resp.deletions@, did@)) by {
                    assert(resp.deletions@[k as int].id@ == did@);
                }
                assert(!has_note(rows, did@));
                assert forall|j: int| 0 <= j < n && !deleted_by(resp.deletions@, resp.notes@[j].id@)
                    implies modified_of(rows, (#[trigger] resp.notes@[j]).id@) is Some
                    && modified_of(rows, resp.notes@[j].id@)->0 >= resp.notes@[j].modified_at by {
                    assert(resp.notes@[j].id@ != did@);
                }
                assert forall|j: int| 0 <= j < n && !deleted_by(resp.deletions@, resp.notes@[j].id@)
                    && unique_in(resp.notes@, j) && remote_wins(old(self).store.notes@, resp.notes@[j])
                    implies row_of(rows, (#[trigger] resp.notes@[j]).id@) is Some
                    && holds_remote(old(self).store.key->0@, row_of(rows, resp.notes@[j].id@)->0, resp.notes@[j]) by {
                    assert(resp.notes@[j].id@ != did@);
                    assert(row_of(rows, resp.notes@[j].id@) == row_of(before, resp.notes@[j].id@));
                }
                assert forall|kk: int| 0 <= kk < k + 1 implies modified_of(rows, (#[trigger] resp.deletions@[kk]).id@) is None by {
                    if kk < k && resp.deletions@[kk].id@ != did@ {
                        assert(modified_of(before, resp.deletions@[kk].id@) is None);
                    }
                }
                assert forall|id: Seq<char>| modified_of(old(self).store.notes@, id) is Some && !deleted_by(resp.deletions@, id)
                    implies #[trigger] modified_of(rows, id) is Some
                    && modified_of(rows, id)->0 >= modified_of(old(self).store.notes@, id)->0 by {
                    assert(id != did@);
                    assert(modified_of(before, id) is Some);
                }
            }
            k = k + 1;
        }
        Ok(count)
    }

    /// Whether every stored version can take `n` more increments, so that
    /// a pull response of `n` notes is admissible.
    pub fn versions_fit(&self, n: u64) -> (r: bool)
        ensures
            r == versions_below(self.store.notes@, n as nat),
    {
        let mut i: usize = 0;
        while i < self.store.notes.len()
            invariant
                i <= self.store.notes@.len(),
                forall|j: int| 0 <= j < i ==> (#[trigger] self.store.notes@[j]).version + n < i64::MAX,
            decreases self.store.notes@.len() - i,
        {
            let v = self.store.notes[i].version;
            if v as i128 + n as i128 >= i64::MAX as i128 {
                return false;
            }
            i = i + 1;
        }
        true
    }

    /// The notes to push: those modified after the last sync (soft-deleted
    /// ones included, so deletions replicate), or every live note when the
    /// store has never synced.
    pub fn push_set(&self) -> (r: Result<Vec<Note>, Error>)
        ensures
            match r {
                Ok(v) => self.store.key is Some && match self.sync.last_sync_at {
                    Some(t) => opens_all(self.store.key->0@, modified_after(self.store.notes@, t), v@),
                    None => opens_all(self.store.key->0@, listed(self.store.notes@, false), v@),
                },
                Err(e) => if self.store.key is None {
                    e == Error::KeyRequired
                } else {
                    e == Error::AuthenticationFailed && match self.sync.last_sync_at {
                        Some(t) => exists|i: int| 0 <= i < modified_after(self.store.notes@, t).len()
                            && !row_opens(self.store.key->0@, #[trigger] modified_after(self.store.notes@, t)[i]),
                        None => exists|i: int| 0 <= i < listed(self.store.notes@, false).len()
                            && !row_opens(self.store.key->0@, #[trigger] listed(self.store.notes@, false)[i]),
                    }
                },
            },
    {
        match self.sync.last_sync_at {
            Some(t) => self.store.get_modified_after(t),
            None => self.store.list(false),
        }
    }

    /// The push request for a set of notes, each in transport form.
    pub fn build_push_request(&self, notes: &Vec<Note>) -> (r: Result<SyncPushRequest, Error>)
        ensures
            match r {
                Ok(req) => self.store.key is Some && req.notes@.len() == notes@.len() && req.attachments@.len() == 0
                    && forall|i: int| 0 <= i < notes@.len() ==> transports(self.store.key->0@, notes@[i], #[trigger] req.notes@[i]),
                Err(e) => e == Error::KeyRequired && self.store.key is None || e == Error::EncryptionFailed
                    && self.store.key is Some && exists|i: int| 0 <= i < notes@.len() && !note_fits(#[trigger] notes@[i]),
            },
            r is Ok <==> self.store.key is Some && forall|i: int| 0 <= i < notes@.len() ==> note_fits(#[trigger] notes@[i]),
    {
        let key = match &self.store.key {
            Some(k) => k,
            None => return Err(Error::KeyRequired),
        };
        let mut out: Vec<SyncNote> = Vec::new();
        let mut i: usize = 0;
        while i < notes.len()
            invariant
                i <= notes@.len(),
                out@.len() == i,
                self.store.key == Some(*key),
                forall|j: int| 0 <= j < i ==> transports(key@, notes@[j], #[trigger] out@[j]),
                forall|j: int| 0 <= j < i ==> note_fits(#[trigger] notes@[j]),
            decreases notes@.len() - i,
        {
            let s = match to_sync_note(&notes[i], key) {
                Ok(s) => s,
                Err(e) => {
                    assert(!note_fits(notes@[i as int]));
                    return Err(e);
                },
            };
            out.push(s);
            i = i + 1;
        }
        Ok(SyncPushRequest { notes: out, attachments: Vec::new() })
    }

    /// The API key for the relay, decrypted from the sync metadata.
    pub fn sync_api_key(&self) -> (r: Result<String, Error>)
        ensures
            match r {
                Ok(k) => self.store.key is Some && self.sync.api_key is Some
                    && opened_json_text(self.store.key->0@, self.sync.api_key->0@) == Some(k@),
                Err(e) => if self.store.key is None {
                    e == Error::KeyRequired
                } else if self.sync.api_key is None {
                    e == Error::NotFound
                } else {
                    e == Error::AuthenticationFailed
                        && opened_json_text(self.store.key->0@, self.sync.api_key->0@) is None
                },
            },
    {
        let key = match &self.store.key {
            Some(k) => k,
            None => return Err(Error::KeyRequired),
        };
        match &self.sync.api_key {
            Some(doc) => CryptoService::new().decrypt_json_text(doc.as_str(), key),
            None => Err(Error::NotFound),
        }
    }

    /// Records a completed cycle: the relay's `synced_at` becomes the
    /// cursor and the pull time, and the push time when something was pushed.
    pub fn finish_sync(&mut self, pushed: bool, synced_at: i64)
        ensures
            final(self).sync.last_sync_at == Some(synced_at),
            final(self).sync.last_pull_at == Some(synced_at),
            final(self).sync.last_push_at == if pushed { Some(synced_at) } else { old(self).sync.last_push_at },
            final(self).sync.api_key == old(self).sync.api_key,
            final(self).sync.client_id == old(self).sync.client_id,
            final(self).store == old(self).store,
            final(self).encryption == old(self).encryption,
    {
        self.sync.last_sync_at = Some(synced_at);
        self.sync.last_pull_at = Some(synced_at);
        if pushed {
            self.sync.last_push_at = Some(synced_at);
        }
    }
}

} // verus!
