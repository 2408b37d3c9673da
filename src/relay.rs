//! The relay: authenticates devices, stores ciphertext rows per client,
//! orders writes by last-write-wins on `modified_at`, and serves change
//! sets filtered by a client-supplied cursor.
//!
//! The relay keeps a clock that never runs backwards: every accepted write
//! and every pull is stamped no earlier than the one before, and a write
//! after a pull is stamped strictly later than that pull's `synced_at`.
use vstd::prelude::*;
use vstd::utf8::*;

use crate::codec::{base64_bytes, base64_decode, base64_text, base64_encode, hex_encode, hex_lower, has_prefix, starts_with};
use crate::crypto::{sha256, sha256_digest};
use crate::error::Error;
use crate::protocol::{
    unique_in, AuthRegisterRequest, AuthRegisterResponse, SyncAccepted, SyncAttachment, SyncNote,
    SyncNoteView, SyncPullRequest, SyncPullResponse, SyncPushRequest, SyncPushResponse, SyncRejected,
    SyncStatusResponse, device_type_name,
};
use crate::system::new_uuid;

verus! {

broadcast use vstd::seq_lib::group_seq_properties;

/// Relies on rand's `random::<[u8; 32]>` (thread-local generator seeded
/// from the OS): 32 random bytes, of which nothing else is known.
#[verifier::external_body]
fn random_key_bytes() -> (r: [u8; 32]) {
    rand::random::<[u8; 32]>()
}

/// The reason given for every rejected write.
pub open spec fn rejection_reason() -> Seq<char> {
    "Server version is newer"@
}

/// A registered device.
#[derive(Debug, Clone)]
pub struct ClientRecord {
    pub id: String,
    /// Lower-case hex SHA-256 of the raw API key.
    pub api_key_hash: String,
    pub device_name: String,
    pub device_type: String,
    pub created_at: i64,
    pub last_seen_at: i64,
    pub is_active: bool,
}

/// A stored note of one client.
#[derive(Debug, Clone)]
pub struct RelayRow {
    pub client_id: String,
    pub server_modified_at: i64,
    pub server_version: u64,
    pub note: SyncNote,
}

/// Stored attachment data: the encrypted blob's bytes.
#[derive(Debug, Clone)]
pub struct AttachmentBlob {
    pub id: String,
    pub data: Vec<u8>,
}

/// What last-write-wins looks at in a row.
pub struct Entry {
    pub modified_at: i64,
    pub server_version: nat,
    pub server_modified_at: i64,
}

pub open spec fn same_key(r: RelayRow, client: Seq<char>, id: Seq<char>) -> bool {
    r.client_id@ == client && r.note.id@ == id
}

pub open spec fn has_row(rows: Seq<RelayRow>, client: Seq<char>, id: Seq<char>) -> bool {
    exists|i: int| 0 <= i < rows.len() && same_key(#[trigger] rows[i], client, id)
}

pub open spec fn row_index(rows: Seq<RelayRow>, client: Seq<char>, id: Seq<char>) -> int {
    choose|i: int| 0 <= i < rows.len() && same_key(#[trigger] rows[i], client, id)
}

pub open spec fn row_entry(r: RelayRow) -> Entry {
    Entry {
        modified_at: r.note.modified_at,
        server_version: r.server_version as nat,
        server_modified_at: r.server_modified_at,
    }
}

/// The row the relay holds for `(client, id)`, if any.
pub open spec fn row_at(rows: Seq<RelayRow>, client: Seq<char>, id: Seq<char>) -> Option<RelayRow> {
    if has_row(rows, client, id) {
        Some(rows[row_index(rows, client, id)])
    } else {
        None
    }
}

/// The last-write-wins state of the row for `(client, id)`, if any.
pub open spec fn entry_of(rows: Seq<RelayRow>, client: Seq<char>, id: Seq<char>) -> Option<Entry> {
    match row_at(rows, client, id) {
        Some(r) => Some(row_entry(r)),
        None => None,
    }
}

/// The creation time a row keeps when it is overwritten.
pub open spec fn created_of(row: Option<RelayRow>) -> Option<i64> {
    match row {
        Some(r) => Some(r.note.created_at),
        None => None,
    }
}

/// Last-write-wins: a write is accepted when no row exists or when it is
/// strictly newer than the stored one.
pub open spec fn accepts(e: Option<Entry>, modified_at: i64) -> bool {
    match e {
        None => true,
        Some(x) => modified_at > x.modified_at,
    }
}

/// The row state after one write stamped `stamp`.
pub open spec fn push_entry(e: Option<Entry>, modified_at: i64, stamp: i64) -> Option<Entry> {
    if accepts(e, modified_at) {
        Some(Entry {
            modified_at,
            server_version: match e {
                None => 1,
                Some(x) => x.server_version + 1,
            },
            server_modified_at: stamp,
        })
    } else {
        e
    }
}

/// The row state after a sequence of writes `(modified_at, stamp)`.
pub open spec fn replay(e: Option<Entry>, writes: Seq<(i64, i64)>) -> Option<Entry>
    decreases writes.len(),
{
    if writes.len() == 0 {
        e
    } else {
        let w = writes.last();
        push_entry(replay(e, writes.drop_last()), w.0, w.1)
    }
}

/// How many of a sequence of writes are accepted.
pub open spec fn accepted_writes(e: Option<Entry>, writes: Seq<(i64, i64)>) -> nat
    decreases writes.len(),
{
    if writes.len() == 0 {
        0
    } else {
        let w = writes.last();
        accepted_writes(e, writes.drop_last()) + if accepts(replay(e, writes.drop_last()), w.0) {
            1nat
        } else {
            0nat
        }
    }
}

/// The writes a push request makes to note `id`, all stamped `stamp`.
pub open spec fn writes_for(notes: Seq<SyncNote>, id: Seq<char>, stamp: i64) -> Seq<(i64, i64)>
    decreases notes.len(),
{
    if notes.len() == 0 {
        Seq::empty()
    } else if notes.last().id@ == id {
        writes_for(notes.drop_last(), id, stamp).push((notes.last().modified_at, stamp))
    } else {
        writes_for(notes.drop_last(), id, stamp)
    }
}

/// The row state a push meets at its `j`-th note: the stored state
/// updated by the notes before it.
pub open spec fn state_before(rows: Seq<RelayRow>, client: Seq<char>, notes: Seq<SyncNote>, stamp: i64, j: int) -> Option<Entry> {
    replay(entry_of(rows, client, notes[j].id@), writes_for(notes.take(j), notes[j].id@, stamp))
}

/// Whether the `j`-th note of a push is accepted.
pub open spec fn push_accepts(rows: Seq<RelayRow>, client: Seq<char>, notes: Seq<SyncNote>, stamp: i64, j: int) -> bool {
    accepts(state_before(rows, client, notes, stamp, j), notes[j].modified_at)
}

/// The server stamp of a row state (0 when there is no row).
pub open spec fn smt_of(e: Option<Entry>) -> i64 {
    match e {
        Some(x) => x.server_modified_at,
        None => 0,
    }
}

/// The accepted entries `(id, server version)` for the first `n` notes of
/// a push, in push order.
pub open spec fn accepted_entries(rows: Seq<RelayRow>, client: Seq<char>, notes: Seq<SyncNote>, stamp: i64, n: int) -> Seq<(Seq<char>, nat)>
    decreases n,
{
    if n <= 0 {
        Seq::empty()
    } else if push_accepts(rows, client, notes, stamp, n - 1) {
        accepted_entries(rows, client, notes, stamp, n - 1).push((
            notes[n - 1].id@,
            version_of(push_entry(state_before(rows, client, notes, stamp, n - 1), notes[n - 1].modified_at, stamp)),
        ))
    } else {
        accepted_entries(rows, client, notes, stamp, n - 1)
    }
}

/// The rejected entries `(id, server stamp of the row)` for the first `n`
/// notes of a push, in push order.
pub open spec fn rejected_entries(rows: Seq<RelayRow>, client: Seq<char>, notes: Seq<SyncNote>, stamp: i64, n: int) -> Seq<(Seq<char>, i64)>
    decreases n,
{
    if n <= 0 {
        Seq::empty()
    } else if !push_accepts(rows, client, notes, stamp, n - 1) {
        rejected_entries(rows, client, notes, stamp, n - 1).push((
            notes[n - 1].id@,
            smt_of(state_before(rows, client, notes, stamp, n - 1)),
        ))
    } else {
        rejected_entries(rows, client, notes, stamp, n - 1)
    }
}

/// The note a row stores for an accepted write: the pushed note, keeping
/// the creation time of an existing row.
pub open spec fn stored_note(e_created: Option<i64>, n: SyncNoteView) -> SyncNoteView {
    match e_created {
        Some(c) => SyncNoteView { created_at: c, ..n },
        None => n,
    }
}

/// The stamp for a write when the relay's clock reads `clock` and the wall
/// clock `now`: `now`, or just after the last stamp if `now` is not later.
pub open spec fn write_stamp(clock: i64, now: i64) -> i64 {
    if now > clock { now } else { (clock + 1) as i64 }
}

/// The `synced_at` of a pull: `now`, or the last stamp if `now` is earlier.
pub open spec fn pull_stamp(clock: i64, now: i64) -> i64 {
    if now > clock { now } else { clock }
}

/// Whether an attachment with id `id` is among `atts`.
pub open spec fn carries_attachment(atts: Seq<SyncAttachment>, id: Seq<char>) -> bool {
    exists|x: int| 0 <= x < atts.len() && (#[trigger] atts[x]).id@ == id
}

/// Whether some note of `notes` references attachment `id`.
pub open spec fn references_attachment(notes: Seq<SyncNoteView>, id: Seq<char>) -> bool {
    exists|j: int, k: int|
        0 <= j < notes.len() && 0 <= k < notes[j].attachments.len() && (#[trigger] notes[j].attachments[k]).id == id
}

/// The views of a vector of sync notes.
pub open spec fn sync_note_views(v: Seq<SyncNote>) -> Seq<SyncNoteView> {
    v.map_values(|n: SyncNote| n@)
}

/// Whether a row is in the change set of `client` after `cursor`.
pub open spec fn in_change_set(r: RelayRow, client: Seq<char>, cursor: Option<i64>) -> bool {
    r.client_id@ == client && match cursor {
        Some(t) => r.server_modified_at > t,
        None => true,
    }
}

/// The rows a pull returns, in stored order (ascending `server_modified_at`).
pub open spec fn change_set(rows: Seq<RelayRow>, client: Seq<char>, cursor: Option<i64>) -> Seq<RelayRow> {
    rows.filter(change_pred(client, cursor))
}

pub open spec fn change_pred(client: Seq<char>, cursor: Option<i64>) -> spec_fn(RelayRow) -> bool {
    |r: RelayRow| in_change_set(r, client, cursor)
}

pub open spec fn note_views(rows: Seq<RelayRow>) -> Seq<SyncNoteView> {
    rows.map_values(|r: RelayRow| r.note@)
}

/// The hash under which an API key is stored.
pub open spec fn api_key_hash(api_key: Seq<char>) -> Seq<char> {
    hex_lower(sha256_digest(encode_utf8(api_key)))
}

/// The relay's whole state.
pub struct Relay {
    pub clients: Vec<ClientRecord>,
    pub rows: Vec<RelayRow>,
    pub blobs: Vec<AttachmentBlob>,
    /// The last stamp the relay issued.
    pub clock: i64,
}

impl Relay {
    /// Rows are ordered by `server_modified_at`, none is stamped after the
    /// clock, each has a server version of at least 1, and no two rows share
    /// a `(client, note id)` pair.
    pub open spec fn wf(&self) -> bool {
        &&& forall|i: int, j: int|
            0 <= i < j < self.rows@.len() ==> (#[trigger] self.rows@[i]).server_modified_at
                <= (#[trigger] self.rows@[j]).server_modified_at
        &&& forall|i: int|
            0 <= i < self.rows@.len() ==> (#[trigger] self.rows@[i]).server_modified_at <= self.clock
                && self.rows@[i].server_version >= 1
        &&& unique_keys(self.rows@)
        &&& unique_blobs(self.blobs@)
    }

    /// An empty relay whose clock starts at `clock`.
    pub fn new(clock: i64) -> (r: Relay)
        ensures
            r.wf(),
            r.clients@.len() == 0,
            r.rows@.len() == 0,
            r.blobs@.len() == 0,
            r.clock == clock,
    {
        Relay { clients: Vec::new(), rows: Vec::new(), blobs: Vec::new(), clock }
    }
}

impl Relay {
    /// The index of the row of `(client_id, id)`, if there is one.
    fn find_row(&self, client_id: &String, id: &String) -> (r: Option<usize>)
        requires
            self.wf(),
        ensures
            match r {
                Some(i) => i < self.rows@.len() && same_key(self.rows@[i as int], client_id@, id@)
                    && entry_of(self.rows@, client_id@, id@) == Some(row_entry(self.rows@[i as int])),
                None => !has_row(self.rows@, client_id@, id@) && entry_of(self.rows@, client_id@, id@) is None,
            },
    {
        let mut i: usize = 0;
        while i < self.rows.len()
            invariant
                self.wf(),
                i <= self.rows@.len(),
                forall|j: int| 0 <= j < i ==> !same_key(#[trigger] self.rows@[j], client_id@, id@),
            decreases self.rows@.len() - i,
        {
            if self.rows[i].client_id == *client_id && self.rows[i].note.id == *id {
                proof {
                    lemma_entry_at(self.rows@, client_id@, id@, i as int);
                }
                return Some(i);
            }
            i = i + 1;
        }
        None
    }

    /// Applies one pushed note under last-write-wins, stamping an accepted
    /// write with `stamp`.
    #[verifier::rlimit(50)]
    pub fn push_note(&mut self, client_id: &String, note: SyncNote, stamp: i64) -> (r: Result<SyncAccepted, SyncRejected>)
        requires
            old(self).wf(),
            version_room(entry_of(old(self).rows@, client_id@, note.id@), 1),
            stamp >= old(self).clock,
        ensures
            final(self).wf(),
            final(self).clock == stamp,
            final(self).clients == old(self).clients,
            final(self).blobs == old(self).blobs,
            entry_of(final(self).rows@, client_id@, note.id@) == push_entry(
                entry_of(old(self).rows@, client_id@, note.id@),
                note.modified_at,
                stamp,
            ),
            forall|c: Seq<char>, id: Seq<char>|
                !(c == client_id@ && id == note.id@) ==> #[trigger] entry_of(final(self).rows@, c, id)
                    == entry_of(old(self).rows@, c, id),
            forall|c: Seq<char>, id: Seq<char>|
                !(c == client_id@ && id == note.id@) ==> #[trigger] row_at(final(self).rows@, c, id)
                    == row_at(old(self).rows@, c, id),
            r is Ok <==> accepts(entry_of(old(self).rows@, client_id@, note.id@), note.modified_at),
            match r {
                Ok(a) => {
                    &&& a.id@ == note.id@
                    &&& a.synced_at == stamp
                    &&& Some(a.server_version as nat) == match entry_of(final(self).rows@, client_id@, note.id@) {
                        Some(x) => Some(x.server_version),
                        None => None,
                    }
                    &&& final(self).rows@.last().note@ == stored_note(created_of(row_at(old(self).rows@, client_id@, note.id@)), note@)
                    &&& same_key(final(self).rows@.last(), client_id@, note.id@)
                    &&& row_at(final(self).rows@, client_id@, note.id@) == Some(final(self).rows@.last())
                },
                Err(j) => {
                    &&& j.id@ == note.id@
                    &&& j.reason@ == rejection_reason()
                    &&& Some(j.server_modified_at) == match entry_of(old(self).rows@, client_id@, note.id@) {
                        Some(x) => Some(x.server_modified_at),
                        None => None,
                    }
                    &&& final(self).rows@ == old(self).rows@
                },
            },
    {
        let ghost old_rows = self.rows@;
        let found = self.find_row(client_id, &note.id);
        let mut note = note;
        let ghost pushed = note@;
        let server_version: u64;
        match found {
            Some(i) => {
                assert(self.rows@[i as int].server_version < u64::MAX);
                if note.modified_at <= self.rows[i].note.modified_at {
                    self.clock = stamp;
                    return Err(SyncRejected {
                        id: note.id,
                        reason: "Server version is newer".to_string(),
                        server_modified_at: self.rows[i].server_modified_at,
                    });
                }
                server_version = self.rows[i].server_version + 1;
                note.created_at = self.rows[i].note.created_at;
                let _old_row = self.rows.remove(i);
            },
            None => {
                server_version = 1;
            },
        }
        let ghost removed = self.rows@;
        let id = note.id.clone();
        let ghost new_note = note;
        self.rows.push(RelayRow {
            client_id: client_id.clone(),
            server_modified_at: stamp,
            server_version,
            note,
        });
        self.clock = stamp;
        proof {
            let rows = self.rows@;
            let n = rows.len() - 1;
            assert(rows.drop_last() == removed);
            assert forall|a: int, b: int| 0 <= a < b < rows.len() implies !same_key(
                #[trigger] rows[a],
                (#[trigger] rows[b]).client_id@,
                rows[b].note.id@,
            ) by {
                if b == n {
                    if same_key(rows[a], client_id@, new_note.id@) {
                        match found {
                            Some(i) => {
                                let k = if a < i { a } else { a + 1 };
                                assert(old_rows[k] == rows[a]);
                                if k < i {
                                    assert(!same_key(old_rows[k], old_rows[i as int].client_id@, old_rows[i as int].note.id@));
                                } else {
                                    assert(!same_key(old_rows[i as int], old_rows[k].client_id@, old_rows[k].note.id@));
                                }
                            },
                            None => {
                                assert(old_rows[a] == rows[a]);
                            },
                        }
                    }
                } else {
                    match found {
                        Some(i) => {
                            let ka = if a < i { a } else { a + 1 };
                            let kb = if b < i { b } else { b + 1 };
                            assert(old_rows[ka] == rows[a]);
                            assert(old_rows[kb] == rows[b]);
                        },
                        None => {},
                    }
                }
            }
            assert forall|a: int, b: int| 0 <= a < b < rows.len() implies (#[trigger] rows[a]).server_modified_at
                <= (#[trigger] rows[b]).server_modified_at by {
                if b < n {
                    match found {
                        Some(i) => {
                            let ka = if a < i { a } else { a + 1 };
                            let kb = if b < i { b } else { b + 1 };
                            assert(old_rows[ka] == rows[a]);
                            assert(old_rows[kb] == rows[b]);
                        },
                        None => {},
                    }
                } else {
                    match found {
                        Some(i) => {
                            let ka = if a < i { a } else { a + 1 };
                            assert(old_rows[ka] == rows[a]);
                        },
                        None => {},
                    }
                }
            }
            assert forall|a: int| 0 <= a < rows.len() implies (#[trigger] rows[a]).server_modified_at <= stamp
                && rows[a].server_version >= 1 by {
                if a < n {
                    match found {
                        Some(i) => {
                            let ka = if a < i { a } else { a + 1 };
                            assert(old_rows[ka] == rows[a]);
                        },
                        None => {},
                    }
                }
            }
            lemma_entry_at(rows, client_id@, pushed.id, n);
            assert forall|c: Seq<char>, id: Seq<char>|
                !(c == client_id@ && id == pushed.id) implies #[trigger] row_at(rows, c, id)
                    == row_at(old_rows, c, id) by {
                if has_row(old_rows, c, id) {
                    let k = row_index(old_rows, c, id);
                    lemma_entry_at(old_rows, c, id, k);
                    let a = match found {
                        Some(i) => if k < i { k } else { k - 1 },
                        None => k,
                    };
                    match found {
                        Some(i) => {
                            assert(k != i);
                        },
                        None => {},
                    }
                    assert(rows[a] == old_rows[k]);
                    lemma_entry_at(rows, c, id, a);
                } else if has_row(rows, c, id) {
                    let a = row_index(rows, c, id);
                    if a < n {
                        let k = match found {
                            Some(i) => if a < i { a } else { a + 1 },
                            None => a,
                        };
                        assert(old_rows[k] == rows[a]);
                        assert(has_row(old_rows, c, id));
                    }
                }
            }
        }
        Ok(SyncAccepted { id, server_version, synced_at: stamp })
    }
}

/// Whether a row's server version can take `n` more increments.
pub open spec fn version_room(e: Option<Entry>, n: nat) -> bool {
    match e {
        Some(x) => x.server_version + n < u64::MAX,
        None => n < u64::MAX,
    }
}

/// Whether every pushed attachment carries valid base64 data.
pub open spec fn attachments_decode(atts: Seq<SyncAttachment>) -> bool {
    forall|k: int| 0 <= k < atts.len() ==> (#[trigger] base64_bytes(atts[k].data@)) is Some
}

/// No two blobs share an id.
pub open spec fn unique_blobs(blobs: Seq<AttachmentBlob>) -> bool {
    forall|a: int, b: int| 0 <= a < b < blobs.len() ==> (#[trigger] blobs[a]).id@ != (#[trigger] blobs[b]).id@
}

/// The data stored under a blob id, if any.
pub open spec fn blob_data(blobs: Seq<AttachmentBlob>, id: Seq<char>) -> Option<Seq<u8>> {
    if exists|k: int| 0 <= k < blobs.len() && (#[trigger] blobs[k]).id@ == id {
        Some(blobs[choose|k: int| 0 <= k < blobs.len() && (#[trigger] blobs[k]).id@ == id].data@)
    } else {
        None
    }
}

/// The data a push request leaves under an attachment id: that of the last
/// pushed attachment with the id, or what was stored before.
pub open spec fn pushed_blob_data(before: Option<Seq<u8>>, atts: Seq<SyncAttachment>, id: Seq<char>) -> Option<Seq<u8>>
    decreases atts.len(),
{
    if atts.len() == 0 {
        before
    } else if atts.last().id@ == id {
        base64_bytes(atts.last().data@)
    } else {
        pushed_blob_data(before, atts.drop_last(), id)
    }
}

/// No two rows share a `(client, note id)` pair.
pub open spec fn unique_keys(rows: Seq<RelayRow>) -> bool {
    forall|a: int, b: int|
        0 <= a < b < rows.len() ==> !same_key(
            #[trigger] rows[a],
            (#[trigger] rows[b]).client_id@,
            rows[b].note.id@,
        )
}

impl Relay {
    /// Stores `data` under attachment id `id`, replacing what was there.
    fn upsert_blob(&mut self, id: String, data: Vec<u8>)
        requires
            unique_blobs(old(self).blobs@),
        ensures
            unique_blobs(final(self).blobs@),
            blob_data(final(self).blobs@, id@) == Some(data@),
            forall|other: Seq<char>| other != id@ ==> #[trigger] blob_data(final(self).blobs@, other)
                == blob_data(old(self).blobs@, other),
            final(self).rows == old(self).rows,
            final(self).clients == old(self).clients,
            final(self).clock == old(self).clock,
    {
        let ghost old_blobs = self.blobs@;
        let mut i: usize = 0;
        while i < self.blobs.len()
            invariant
                self.blobs@ == old_blobs,
                old_blobs == old(self).blobs@,
                self.rows == old(self).rows,
                self.clients == old(self).clients,
                self.clock == old(self).clock,
                unique_blobs(old_blobs),
                i <= old_blobs.len(),
                forall|k: int| 0 <= k < i ==> (#[trigger] old_blobs[k]).id@ != id@,
            decreases old_blobs.len() - i,
        {
            if self.blobs[i].id == id {
                let ghost idv = id@;
                let ghost dv = data@;
                self.blobs.set(i, AttachmentBlob { id, data });
                proof {
                    let nb = self.blobs@;
                    assert(nb[i as int].id@ == idv);
                    assert forall|a: int, b: int| 0 <= a < b < nb.len() implies (#[trigger] nb[a]).id@
                        != (#[trigger] nb[b]).id@ by {
                        assert(old_blobs[a].id@ != old_blobs[b].id@);
                    }
                    assert(blob_data(nb, idv) == Some(dv)) by {
                        let k = choose|k: int| 0 <= k < nb.len() && (#[trigger] nb[k]).id@ == idv;
                        if k != i {
                            if k < i {
                                assert(nb[k].id@ != nb[i as int].id@);
                            } else {
                                assert(nb[i as int].id@ != nb[k].id@);
                            }
                        }
                    }
                    assert(old_blobs[i as int].id@ == idv);
                    lemma_blob_data_frame(old_blobs, i as int, nb);
                }
                return;
            }
            i = i + 1;
        }
        let ghost idv = id@;
        let ghost dv = data@;
        self.blobs.push(AttachmentBlob { id, data });
        proof {
            let nb = self.blobs@;
            let n = old_blobs.len() as int;
            assert forall|a: int, b: int| 0 <= a < b < nb.len() implies (#[trigger] nb[a]).id@
                != (#[trigger] nb[b]).id@ by {
                if b < n {
                    assert(old_blobs[a].id@ != old_blobs[b].id@);
                } else {
                    assert(old_blobs[a].id@ != idv);
                }
            }
            assert(blob_data(nb, idv) == Some(dv)) by {
                assert(nb[n].id@ == idv);
                let k = choose|k: int| 0 <= k < nb.len() && (#[trigger] nb[k]).id@ == idv;
                if k != n {
                    assert(old_blobs[k].id@ != idv);
                }
            }
            assert forall|other: Seq<char>| other != idv implies #[trigger] blob_data(nb, other)
                == blob_data(old_blobs, other) by {
                if exists|k: int| 0 <= k < nb.len() && (#[trigger] nb[k]).id@ == other {
                    let k = choose|k: int| 0 <= k < nb.len() && (#[trigger] nb[k]).id@ == other;
                    assert(k < n);
                    assert(old_blobs[k].id@ == other);
                    let k2 = choose|k: int| 0 <= k < old_blobs.len() && (#[trigger] old_blobs[k]).id@ == other;
                    if k2 != k {
                        if k2 < k {
                            assert(old_blobs[k2].id@ != old_blobs[k].id@);
                        } else {
                            assert(old_blobs[k].id@ != old_blobs[k2].id@);
                        }
                    }
                    assert(nb[k2] == old_blobs[k2]);
                } else {
                    if exists|k: int| 0 <= k < old_blobs.len() && (#[trigger] old_blobs[k]).id@ == other {
                        let k = choose|k: int| 0 <= k < old_blobs.len() && (#[trigger] old_blobs[k]).id@ == other;
                        assert(nb[k].id@ == other);
                    }
                }
            }
        }
    }
}

impl Relay {
    /// The index of the blob stored under `id`, if any.
    fn find_blob(&self, id: &String) -> (r: Option<usize>)
        requires
            unique_blobs(self.blobs@),
        ensures
            match r {
                Some(i) => i < self.blobs@.len() && self.blobs@[i as int].id@ == id@
                    && blob_data(self.blobs@, id@) == Some(self.blobs@[i as int].data@),
                None => blob_data(self.blobs@, id@) is None,
            },
    {
        let mut i: usize = 0;
        while i < self.blobs.len()
            invariant
                unique_blobs(self.blobs@),
                i <= self.blobs@.len(),
                forall|k: int| 0 <= k < i ==> (#[trigger] self.blobs@[k]).id@ != id@,
            decreases self.blobs@.len() - i,
        {
            if self.blobs[i].id == *id {
                proof {
                    let b = self.blobs@;
                    let k = choose|k: int| 0 <= k < b.len() && (#[trigger] b[k]).id@ == id@;
                    if k != i {
                        if k < i {
                            assert(b[k].id@ != b[i as int].id@);
                        } else {
                            assert(b[i as int].id@ != b[k].id@);
                        }
                    }
                }
                return Some(i);
            }
            i = i + 1;
        }
        None
    }

    /// Applies a push request: every attachment's data must be valid base64
    /// (else nothing changes and `InvalidInput` is returned); then each note
    /// is decided by last-write-wins in order, and the attachment data is
    /// stored, the last one pushed under an id winning.
    #[verifier::rlimit(50)]
    pub fn push(&mut self, client_id: &String, req: SyncPushRequest, now: i64) -> (r: Result<SyncPushResponse, Error>)
        requires
            old(self).wf(),
            old(self).clock < i64::MAX,
            forall|id: Seq<char>|
                #[trigger] version_room(entry_of(old(self).rows@, client_id@, id), req.notes@.len() as nat),
        ensures
            r is Err <==> !attachments_decode(req.attachments@),
            match r {
                Err(e) => e == Error::InvalidInput && *final(self) == *old(self),
                Ok(resp) => {
                    let stamp = write_stamp(old(self).clock, now);
                    &&& final(self).wf()
                    &&& final(self).clock == stamp
                    &&& final(self).clients == old(self).clients
                    &&& forall|c: Seq<char>, id: Seq<char>| #[trigger] entry_of(final(self).rows@, c, id)
                        == if c == client_id@ {
                            replay(entry_of(old(self).rows@, c, id), writes_for(req.notes@, id, stamp))
                        } else {
                            entry_of(old(self).rows@, c, id)
                        }
                    &&& forall|id: Seq<char>| #[trigger] blob_data(final(self).blobs@, id)
                        == pushed_blob_data(blob_data(old(self).blobs@, id), req.attachments@, id)
                    &&& resp.accepted@.len() + resp.rejected@.len() == req.notes@.len()
                    &&& resp.accepted@.map_values(|a: SyncAccepted| (a.id@, a.server_version as nat))
                        == accepted_entries(old(self).rows@, client_id@, req.notes@, stamp, req.notes@.len() as int)
                    &&& resp.rejected@.map_values(|j: SyncRejected| (j.id@, j.server_modified_at))
                        == rejected_entries(old(self).rows@, client_id@, req.notes@, stamp, req.notes@.len() as int)
                    &&& forall|j: int| 0 <= j < req.notes@.len() && unique_in(req.notes@, j)
                        && push_accepts(old(self).rows@, client_id@, req.notes@, stamp, j)
                        ==> row_at(final(self).rows@, client_id@, (#[trigger] req.notes@[j]).id@) is Some
                        && row_at(final(self).rows@, client_id@, req.notes@[j].id@)->0.note@ == stored_note(
                        created_of(row_at(old(self).rows@, client_id@, req.notes@[j].id@)),
                        req.notes@[j]@,
                    )
                    &&& resp.errors@.len() == 0
                    &&& forall|k: int| 0 <= k < resp.accepted@.len() ==> (#[trigger] resp.accepted@[k]).synced_at == stamp
                    &&& forall|k: int| 0 <= k < resp.rejected@.len() ==> (#[trigger] resp.rejected@[k]).reason@ == rejection_reason()
                },
            },
    {
        let mut decoded: Vec<Vec<u8>> = Vec::new();
        let mut a: usize = 0;
        while a < req.attachments.len()
            invariant
                a <= req.attachments@.len(),
                decoded@.len() == a,
                forall|k: int| 0 <= k < a ==> base64_bytes(req.attachments@[k].data@) == Some(#[trigger] decoded@[k]@),
            decreases req.attachments@.len() - a,
        {
            match base64_decode(req.attachments[a].data.as_str()) {
                Some(d) => decoded.push(d),
                None => {
                    return Err(Error::InvalidInput);
                },
            }
            a = a + 1;
        }
        assert(attachments_decode(req.attachments@)) by {
            assert forall|k: int| 0 <= k < req.attachments@.len() implies (#[trigger] base64_bytes(
                req.attachments@[k].data@,
            )) is Some by {
                assert(base64_bytes(req.attachments@[k].data@) == Some(decoded@[k]@));
            }
        }
        let stamp = if now > self.clock { now } else { self.clock + 1 };
        self.clock = stamp;
        let ghost rows0 = old(self).rows@;
        let n = req.notes.len();
        let mut accepted: Vec<SyncAccepted> = Vec::new();
        let mut rejected: Vec<SyncRejected> = Vec::new();
        let mut i: usize = 0;
        while i < n
            invariant
                n == req.notes@.len(),
                i <= n,
                self.wf(),
                self.clock == stamp,
                self.clients == old(self).clients,
                self.blobs == old(self).blobs,
                accepted@.len() + rejected@.len() == i,
                accepted@.map_values(|a: SyncAccepted| (a.id@, a.server_version as nat))
                    == accepted_entries(rows0, client_id@, req.notes@, stamp, i as int),
                rejected@.map_values(|j: SyncRejected| (j.id@, j.server_modified_at))
                    == rejected_entries(rows0, client_id@, req.notes@, stamp, i as int),
                forall|id: Seq<char>| (forall|j: int| 0 <= j < i ==> (#[trigger] req.notes@[j]).id@ != id)
                    ==> #[trigger] row_at(self.rows@, client_id@, id) == row_at(rows0, client_id@, id),
                forall|j: int| 0 <= j < i && unique_in(req.notes@, j) && push_accepts(rows0, client_id@, req.notes@, stamp, j)
                    ==> row_at(self.rows@, client_id@, (#[trigger] req.notes@[j]).id@) is Some
                    && row_at(self.rows@, client_id@, req.notes@[j].id@)->0.note@ == stored_note(
                    created_of(row_at(rows0, client_id@, req.notes@[j].id@)),
                    req.notes@[j]@,
                ),
                forall|k: int| 0 <= k < accepted@.len() ==> (#[trigger] accepted@[k]).synced_at == stamp,
                forall|k: int| 0 <= k < rejected@.len() ==> (#[trigger] rejected@[k]).reason@ == rejection_reason(),
                forall|id: Seq<char>| #[trigger] version_room(entry_of(self.rows@, client_id@, id), (n - i) as nat),
                forall|c: Seq<char>, id: Seq<char>| #[trigger] entry_of(self.rows@, c, id)
                    == if c == client_id@ {
                        replay(entry_of(rows0, c, id), writes_for(req.notes@.take(i as int), id, stamp))
                    } else {
                        entry_of(rows0, c, id)
                    },
            decreases n - i,
        {
            let note = req.notes[i].duplicate();
            let ghost before = self.rows@;
            let ghost nid = note.id@;
            let ghost m = note.modified_at;
            assert(version_room(entry_of(self.rows@, client_id@, nid), (n - i) as nat));
            let ghost acc_before = accepted@;
            let ghost rej_before = rejected@;
            proof {
                assert(entry_of(before, client_id@, nid) == replay(
                    entry_of(rows0, client_id@, nid),
                    writes_for(req.notes@.take(i as int), nid, stamp),
                ));
            }
            match self.push_note(client_id, note, stamp) {
                Ok(acc) => accepted.push(acc),
                Err(rej) => rejected.push(rej),
            }
            proof {
                let notes = req.notes@;
                let e_before = entry_of(before, client_id@, nid);
                assert(nid == notes[i as int].id@ && m == notes[i as int].modified_at);
                assert(state_before(rows0, client_id@, notes, stamp, i as int) == e_before);
                assert(push_accepts(rows0, client_id@, notes, stamp, i as int) == (accepted@.len() > acc_before.len()));
                if accepted@.len() > acc_before.len() {
                    let a = accepted@.last();
                    assert(accepted@ == acc_before.push(a));
                    assert(rejected@ == rej_before);
                    assert(a.server_version as nat == version_of(push_entry(e_before, m, stamp)));
                    assert(accepted@.map_values(|a: SyncAccepted| (a.id@, a.server_version as nat)) =~= acc_before.map_values(
                        |a: SyncAccepted| (a.id@, a.server_version as nat),
                    ).push((nid, version_of(push_entry(e_before, m, stamp)))));
                } else {
                    let j = rejected@.last();
                    assert(rejected@ == rej_before.push(j));
                    assert(accepted@ == acc_before);
                    assert(j.server_modified_at == smt_of(e_before));
                    assert(rejected@.map_values(|j: SyncRejected| (j.id@, j.server_modified_at)) =~= rej_before.map_values(
                        |j: SyncRejected| (j.id@, j.server_modified_at),
                    ).push((nid, smt_of(e_before))));
                }
                if unique_in(notes, i as int) {
                    assert(forall|j: int| 0 <= j < i ==> (#[trigger] notes[j]).id@ != nid);
                    assert(row_at(before, client_id@, nid) == row_at(rows0, client_id@, nid));
                }
                assert forall|j: int| 0 <= j < i + 1 && unique_in(notes, j) && push_accepts(rows0, client_id@, notes, stamp, j)
                    implies row_at(self.rows@, client_id@, (#[trigger] notes[j]).id@) is Some
                    && row_at(self.rows@, client_id@, notes[j].id@)->0.note@ == stored_note(
                    created_of(row_at(rows0, client_id@, notes[j].id@)),
                    notes[j]@,
                ) by {
                    if j < i {
                        assert(notes[j].id@ != nid);
                        assert(row_at(self.rows@, client_id@, notes[j].id@) == row_at(before, client_id@, notes[j].id@));
                    }
                }
                assert forall|id: Seq<char>| (forall|j: int| 0 <= j < i + 1 ==> (#[trigger] notes[j]).id@ != id)
                    implies #[trigger] row_at(self.rows@, client_id@, id) == row_at(rows0, client_id@, id) by {
                    assert(notes[i as int].id@ != id);
                    assert(row_at(self.rows@, client_id@, id) == row_at(before, client_id@, id));
                }
                assert(notes.take(i + 1).drop_last() == notes.take(i as int));
                assert(notes.take(i + 1).last() == notes[i as int]);
                assert(nid == notes[i as int].id@ && m == notes[i as int].modified_at);
                assert forall|id: Seq<char>| #[trigger] version_room(entry_of(self.rows@, client_id@, id), (n - i - 1) as nat) by {
                    assert(version_room(entry_of(before, client_id@, id), (n - i) as nat));
                    lemma_version_room_step(entry_of(before, client_id@, id), m, stamp, (n - i - 1) as nat);
                }
                assert forall|c: Seq<char>, id: Seq<char>| #[trigger] entry_of(self.rows@, c, id)
                    == if c == client_id@ {
                        replay(entry_of(rows0, c, id), writes_for(notes.take(i + 1), id, stamp))
                    } else {
                        entry_of(rows0, c, id)
                    } by {
                    assert(entry_of(before, c, id) == if c == client_id@ {
                        replay(entry_of(rows0, c, id), writes_for(notes.take(i as int), id, stamp))
                    } else {
                        entry_of(rows0, c, id)
                    });
                    if c == client_id@ && id == nid {
                        let w = writes_for(notes.take(i as int), id, stamp);
                        assert(writes_for(notes.take(i + 1), id, stamp) == w.push((m, stamp)));
                        assert(w.push((m, stamp)).drop_last() == w);
                    }
                }
            }
            i = i + 1;
        }
        proof {
            assert(req.notes@.take(n as int) == req.notes@);
        }
        let ghost blobs1 = self.blobs@;
        let ghost rows1 = self.rows@;
        let mut b: usize = 0;
        while b < req.attachments.len()
            invariant
                b <= req.attachments@.len(),
                decoded@.len() == req.attachments@.len(),
                forall|k: int| 0 <= k < req.attachments@.len() ==> base64_bytes(req.attachments@[k].data@) == Some(#[trigger] decoded@[k]@),
                self.wf(),
                self.clock == stamp,
                self.clients == old(self).clients,
                forall|c: Seq<char>, id: Seq<char>| #[trigger] entry_of(self.rows@, c, id)
                    == if c == client_id@ {
                        replay(entry_of(rows0, c, id), writes_for(req.notes@, id, stamp))
                    } else {
                        entry_of(rows0, c, id)
                    },
                blobs1 == old(self).blobs@,
                self.rows@ == rows1,
                forall|id: Seq<char>| #[trigger] blob_data(self.blobs@, id)
                    == pushed_blob_data(blob_data(blobs1, id), req.attachments@.take(b as int), id),
            decreases req.attachments@.len() - b,
        {
            let ghost before = self.blobs@;
            let id = req.attachments[b].id.clone();
            let data = decoded[b].clone();
            self.upsert_blob(id, data);
            proof {
                let atts = req.attachments@;
                assert(atts.take(b + 1).drop_last() == atts.take(b as int));
                assert(atts.take(b + 1).last() == atts[b as int]);
                assert forall|id: Seq<char>| #[trigger] blob_data(self.blobs@, id)
                    == pushed_blob_data(blob_data(blobs1, id), atts.take(b + 1), id) by {
                    assert(blob_data(before, id) == pushed_blob_data(blob_data(blobs1, id), atts.take(b as int), id));
                }
            }
            b = b + 1;
        }
        proof {
            assert(req.attachments@.take(req.attachments@.len() as int) == req.attachments@);
        }
        Ok(SyncPushResponse { accepted, rejected, errors: Vec::new() })
    }
}

impl Relay {
    /// The notes of `client_id` stamped after `cursor`, oldest stamp first.
    fn changed_notes(&self, client_id: &String, cursor: Option<i64>) -> (r: Vec<SyncNote>)
        ensures
            sync_note_views(r@) == note_views(change_set(self.rows@, client_id@, cursor)),
    {
        let ghost pred = change_pred(client_id@, cursor);
        let mut out: Vec<SyncNote> = Vec::new();
        let mut i: usize = 0;
        while i < self.rows.len()
            invariant
                i <= self.rows@.len(),
                pred == change_pred(client_id@, cursor),
                sync_note_views(out@) == note_views(self.rows@.take(i as int).filter(pred)),
            decreases self.rows@.len() - i,
        {
            let row = &self.rows[i];
            let fresh = match cursor {
                Some(t) => row.server_modified_at > t,
                None => true,
            };
            let ghost prev = out@;
            if row.client_id == *client_id && fresh {
                out.push(row.note.duplicate());
            }
            proof {
                let rows = self.rows@;
                assert(rows.take(i + 1) == rows.take(i as int).push(rows[i as int]));
                rows.take(i as int).lemma_filter_push(rows[i as int], pred);
                if pred(rows[i as int]) {
                    assert(sync_note_views(out@) == sync_note_views(prev).push(rows[i as int].note@));
                    assert(note_views(rows.take(i as int).filter(pred).push(rows[i as int]))
                        == note_views(rows.take(i as int).filter(pred)).push(rows[i as int].note@));
                }
            }
            i = i + 1;
        }
        proof {
            assert(self.rows@.take(self.rows@.len() as int) == self.rows@);
        }
        out
    }

    /// The stored data of every attachment that `notes` reference.
    fn referenced_blobs(&self, notes: &Vec<SyncNote>) -> (r: Vec<SyncAttachment>)
        requires
            unique_blobs(self.blobs@),
        ensures
            forall|x: int| 0 <= x < r@.len() ==> {
                &&& blob_data(self.blobs@, (#[trigger] r@[x]).id@) is Some
                &&& r@[x].data@ == base64_text(blob_data(self.blobs@, r@[x].id@)->0)
                &&& references_attachment(sync_note_views(notes@), r@[x].id@)
            },
            forall|j: int, k: int|
                0 <= j < notes@.len() && 0 <= k < notes@[j].attachments@.len()
                    && blob_data(self.blobs@, (#[trigger] notes@[j].attachments@[k]).id@) is Some
                    ==> carries_attachment(r@, notes@[j].attachments@[k].id@),
    {
        let ghost views = sync_note_views(notes@);
        let mut out: Vec<SyncAttachment> = Vec::new();
        let mut j: usize = 0;
        while j < notes.len()
            invariant
                unique_blobs(self.blobs@),
                views == sync_note_views(notes@),
                j <= notes@.len(),
                forall|x: int| 0 <= x < out@.len() ==> {
                    &&& blob_data(self.blobs@, (#[trigger] out@[x]).id@) is Some
                    &&& out@[x].data@ == base64_text(blob_data(self.blobs@, out@[x].id@)->0)
                    &&& references_attachment(views, out@[x].id@)
                },
                forall|jj: int, k: int|
                    0 <= jj < j && 0 <= k < notes@[jj].attachments@.len()
                        && blob_data(self.blobs@, (#[trigger] notes@[jj].attachments@[k]).id@) is Some
                        ==> carries_attachment(out@, notes@[jj].attachments@[k].id@),
            decreases notes@.len() - j,
        {
            let refs = &notes[j].attachments;
            let mut k: usize = 0;
            while k < refs.len()
                invariant
                    unique_blobs(self.blobs@),
                    views == sync_note_views(notes@),
                    j < notes@.len(),
                    *refs == notes@[j as int].attachments,
                    k <= refs@.len(),
                    forall|x: int| 0 <= x < out@.len() ==> {
                        &&& blob_data(self.blobs@, (#[trigger] out@[x]).id@) is Some
                        &&& out@[x].data@ == base64_text(blob_data(self.blobs@, out@[x].id@)->0)
                        &&& references_attachment(views, out@[x].id@)
                    },
                    forall|jj: int, kk: int|
                        0 <= jj < j && 0 <= kk < notes@[jj].attachments@.len()
                            && blob_data(self.blobs@, (#[trigger] notes@[jj].attachments@[kk]).id@) is Some
                            ==> carries_attachment(out@, notes@[jj].attachments@[kk].id@),
                    forall|kk: int|
                        0 <= kk < k && blob_data(self.blobs@, (#[trigger] refs@[kk]).id@) is Some
                            ==> carries_attachment(out@, refs@[kk].id@),
                decreases refs@.len() - k,
            {
                let ghost prev = out@;
                match self.find_blob(&refs[k].id) {
                    Some(bi) => {
                        let att = SyncAttachment {
                            id: refs[k].id.clone(),
                            data: base64_encode(self.blobs[bi].data.as_slice()),
                        };
                        out.push(att);
                        proof {
                            let o = out@;
                            let last = o.len() - 1;
                            assert(views[j as int].attachments[k as int] == refs@[k as int]@);
                            assert(views[j as int].attachments[k as int].id == o[last].id@);
                            assert forall|x: int| 0 <= x < o.len() implies {
                                &&& blob_data(self.blobs@, (#[trigger] o[x]).id@) is Some
                                &&& o[x].data@ == base64_text(blob_data(self.blobs@, o[x].id@)->0)
                                &&& references_attachment(views, o[x].id@)
                            } by {
                                if x < last {
                                    assert(o[x] == prev[x]);
                                }
                            }
                            assert forall|jj: int, kk: int|
                                0 <= jj < j && 0 <= kk < notes@[jj].attachments@.len()
                                    && blob_data(self.blobs@, (#[trigger] notes@[jj].attachments@[kk]).id@) is Some
                                    implies carries_attachment(o, notes@[jj].attachments@[kk].id@) by {
                                let w = choose|x: int| 0 <= x < prev.len() && (#[trigger] prev[x]).id@ == notes@[jj].attachments@[kk].id@;
                                assert(o[w] == prev[w]);
                            }
                            assert forall|kk: int|
                                0 <= kk < k + 1 && blob_data(self.blobs@, (#[trigger] refs@[kk]).id@) is Some
                                    implies carries_attachment(o, refs@[kk].id@) by {
                                if kk < k {
                                    let w = choose|x: int| 0 <= x < prev.len() && (#[trigger] prev[x]).id@ == refs@[kk].id@;
                                    assert(o[w] == prev[w]);
                                } else {
                                    assert(o[last].id@ == refs@[kk].id@);
                                }
                            }
                        }
                    },
                    None => {},
                }
                k = k + 1;
            }
            j = j + 1;
        }
        out
    }

    /// Answers a pull: the client's rows stamped after `last_sync_at` (all
    /// of them when it is absent), oldest stamp first, the data of the
    /// attachments they reference, and a `synced_at` cursor no earlier than
    /// any stamp issued so far. The relay reports deletions through the
    /// `deleted` flag of notes, so the deletions list is empty.
    pub fn pull(&mut self, client_id: &String, req: &SyncPullRequest, now: i64) -> (r: SyncPullResponse)
        requires
            old(self).wf(),
        ensures
            final(self).wf(),
            final(self).rows == old(self).rows,
            final(self).blobs == old(self).blobs,
            final(self).clients == old(self).clients,
            final(self).clock == pull_stamp(old(self).clock, now),
            r.synced_at == pull_stamp(old(self).clock, now),
            sync_note_views(r.notes@) == note_views(change_set(old(self).rows@, client_id@, req.last_sync_at)),
            r.deletions@.len() == 0,
            forall|x: int| 0 <= x < r.attachments@.len() ==> {
                &&& blob_data(old(self).blobs@, (#[trigger] r.attachments@[x]).id@) is Some
                &&& r.attachments@[x].data@ == base64_text(blob_data(old(self).blobs@, r.attachments@[x].id@)->0)
                &&& references_attachment(sync_note_views(r.notes@), r.attachments@[x].id@)
            },
            forall|j: int, k: int|
                0 <= j < r.notes@.len() && 0 <= k < r.notes@[j].attachments@.len()
                    && blob_data(old(self).blobs@, (#[trigger] r.notes@[j].attachments@[k]).id@) is Some
                    ==> carries_attachment(r.attachments@, r.notes@[j].attachments@[k].id@),
    {
        let notes = self.changed_notes(client_id, req.last_sync_at);
        let attachments = self.referenced_blobs(&notes);
        let synced_at = if now > self.clock { now } else { self.clock };
        self.clock = synced_at;
        SyncPullResponse { notes, deletions: Vec::new(), attachments, synced_at }
    }
}

/// Whether `client` is a registered, active device whose key hashes to `hash`.
pub open spec fn client_matches(client: ClientRecord, hash: Seq<char>) -> bool {
    client.is_active && client.api_key_hash@ == hash
}

/// The value of `Authorization` after the `Bearer ` prefix, if it has one.
pub open spec fn bearer_token(header: Seq<char>) -> Option<Seq<char>> {
    if has_prefix(header, "Bearer "@) {
        Some(header.subrange(7, header.len() as int))
    } else {
        None
    }
}

impl Relay {
    /// The number of rows of `client_id` and the latest stamp among them
    /// (`now` when there are none).
    pub fn status(&self, client_id: &String, now: i64) -> (r: SyncStatusResponse)
        requires
            self.wf(),
        ensures
            r.client_id@ == client_id@,
            r.note_count == change_set(self.rows@, client_id@, None).len(),
            r.server_last_modified == if change_set(self.rows@, client_id@, None).len() == 0 {
                now
            } else {
                change_set(self.rows@, client_id@, None).last().server_modified_at
            },
            r.last_synced_at is None,
    {
        let ghost pred = change_pred(client_id@, None);
        let mut count: u64 = 0;
        let mut last = now;
        let mut i: usize = 0;
        while i < self.rows.len()
            invariant
                i <= self.rows@.len(),
                pred == change_pred(client_id@, None),
                count == self.rows@.take(i as int).filter(pred).len(),
                last == if count == 0 { now } else { self.rows@.take(i as int).filter(pred).last().server_modified_at },
            decreases self.rows@.len() - i,
        {
            proof {
                let rows = self.rows@;
                assert(rows.take(i + 1) == rows.take(i as int).push(rows[i as int]));
                rows.take(i as int).lemma_filter_push(rows[i as int], pred);
                rows.take(i as int).filter(pred).lemma_filter_len(pred);
                rows.take(i as int).lemma_filter_len(pred);
            }
            if self.rows[i].client_id == *client_id {
                count = count + 1;
                last = self.rows[i].server_modified_at;
            }
            i = i + 1;
        }
        proof {
            assert(self.rows@.take(self.rows@.len() as int) == self.rows@);
        }
        SyncStatusResponse { client_id: client_id.clone(), server_last_modified: last, note_count: count, last_synced_at: None }
    }

    /// Removes the blob stored under `id`, if any.
    fn remove_blob(&mut self, id: &String)
        requires
            unique_blobs(old(self).blobs@),
        ensures
            unique_blobs(final(self).blobs@),
            blob_data(final(self).blobs@, id@) is None,
            forall|other: Seq<char>| other != id@ ==> #[trigger] blob_data(final(self).blobs@, other)
                == blob_data(old(self).blobs@, other),
            final(self).rows == old(self).rows,
            final(self).clients == old(self).clients,
            final(self).clock == old(self).clock,
    {
        match self.find_blob(id) {
            None => {},
            Some(i) => {
                let ghost ob = self.blobs@;
                let _gone = self.blobs.remove(i);
                proof {
                    let nb = self.blobs@;
                    assert forall|a: int, b: int| 0 <= a < b < nb.len() implies (#[trigger] nb[a]).id@
                        != (#[trigger] nb[b]).id@ by {
                        let ka = if a < i { a } else { a + 1 };
                        let kb = if b < i { b } else { b + 1 };
                        assert(nb[a] == ob[ka] && nb[b] == ob[kb]);
                    }
                    if exists|k: int| 0 <= k < nb.len() && (#[trigger] nb[k]).id@ == id@ {
                        let k = choose|k: int| 0 <= k < nb.len() && (#[trigger] nb[k]).id@ == id@;
                        let kk = if k < i { k } else { k + 1 };
                        assert(nb[k] == ob[kk]);
                        if kk < i {
                            assert(ob[kk].id@ != ob[i as int].id@);
                        } else {
                            assert(ob[i as int].id@ != ob[kk].id@);
                        }
                    }
                    assert forall|other: Seq<char>| other != id@ implies #[trigger] blob_data(nb, other)
                        == blob_data(ob, other) by {
                        if exists|k: int| 0 <= k < nb.len() && (#[trigger] nb[k]).id@ == other {
                            let k = choose|k: int| 0 <= k < nb.len() && (#[trigger] nb[k]).id@ == other;
                            let kk = if k < i { k } else { k + 1 };
                            assert(nb[k] == ob[kk]);
                            let k2 = choose|k: int| 0 <= k < ob.len() && (#[trigger] ob[k]).id@ == other;
                            if k2 != kk {
                                if k2 < kk {
                                    assert(ob[k2].id@ != ob[kk].id@);
                                } else {
                                    assert(ob[kk].id@ != ob[k2].id@);
                                }
                            }
                        } else if exists|k: int| 0 <= k < ob.len() && (#[trigger] ob[k]).id@ == other {
                            let k = choose|k: int| 0 <= k < ob.len() && (#[trigger] ob[k]).id@ == other;
                            assert(k != i);
                            let kk = if k < i { k } else { k - 1 };
                            assert(nb[kk] == ob[k]);
                        }
                    }
                }
            },
        }
    }

    /// Hard-deletes the row of `(client_id, note_id)` and the data of the
    /// attachments it references. Deleting a missing row changes nothing.
    pub fn delete_note(&mut self, client_id: &String, note_id: &String)
        requires
            old(self).wf(),
        ensures
            final(self).wf(),
            final(self).clock == old(self).clock,
            final(self).clients == old(self).clients,
            entry_of(final(self).rows@, client_id@, note_id@) is None,
            forall|c: Seq<char>, id: Seq<char>|
                !(c == client_id@ && id == note_id@) ==> #[trigger] entry_of(final(self).rows@, c, id)
                    == entry_of(old(self).rows@, c, id),
            !has_row(old(self).rows@, client_id@, note_id@) ==> *final(self) == *old(self),
            has_row(old(self).rows@, client_id@, note_id@) ==> forall|k: int|
                0 <= k < old(self).rows@[row_index(old(self).rows@, client_id@, note_id@)].note.attachments@.len()
                    ==> blob_data(final(self).blobs@, (#[trigger] old(self).rows@[row_index(old(self).rows@, client_id@, note_id@)].note.attachments@[k]).id@) is None,
    {
        match self.find_row(client_id, note_id) {
            None => {},
            Some(i) => {
                let ghost old_rows = self.rows@;
                let row = self.rows.remove(i);
                proof {
                    let rows = self.rows@;
                    assert forall|a: int, b: int| 0 <= a < b < rows.len() implies !same_key(
                        #[trigger] rows[a],
                        (#[trigger] rows[b]).client_id@,
                        rows[b].note.id@,
                    ) by {
                        let ka = if a < i { a } else { a + 1 };
                        let kb = if b < i { b } else { b + 1 };
                        assert(rows[a] == old_rows[ka] && rows[b] == old_rows[kb]);
                    }
                    assert forall|a: int, b: int| 0 <= a < b < rows.len() implies (#[trigger] rows[a]).server_modified_at
                        <= (#[trigger] rows[b]).server_modified_at by {
                        let ka = if a < i { a } else { a + 1 };
                        let kb = if b < i { b } else { b + 1 };
                        assert(rows[a] == old_rows[ka] && rows[b] == old_rows[kb]);
                    }
                    assert forall|a: int| 0 <= a < rows.len() implies (#[trigger] rows[a]).server_modified_at <= self.clock
                        && rows[a].server_version >= 1 by {
                        let ka = if a < i { a } else { a + 1 };
                        assert(rows[a] == old_rows[ka]);
                    }
                    if has_row(rows, client_id@, note_id@) {
                        let k = row_index(rows, client_id@, note_id@);
                        let kk = if k < i { k } else { k + 1 };
                        assert(rows[k] == old_rows[kk]);
                        if kk < i {
                            assert(!same_key(old_rows[kk], old_rows[i as int].client_id@, old_rows[i as int].note.id@));
                        } else {
                            assert(!same_key(old_rows[i as int], old_rows[kk].client_id@, old_rows[kk].note.id@));
                        }
                    }
                    assert forall|c: Seq<char>, id: Seq<char>|
                        !(c == client_id@ && id == note_id@) implies #[trigger] entry_of(rows, c, id)
                            == entry_of(old_rows, c, id) by {
                        if has_row(old_rows, c, id) {
                            let k = row_index(old_rows, c, id);
                            lemma_entry_at(old_rows, c, id, k);
                            assert(k != i);
                            let a = if k < i { k } else { k - 1 };
                            assert(rows[a] == old_rows[k]);
                            lemma_entry_at(rows, c, id, a);
                        } else if has_row(rows, c, id) {
                            let a = row_index(rows, c, id);
                            let k = if a < i { a } else { a + 1 };
                            assert(old_rows[k] == rows[a]);
                        }
                    }
                }
                let refs = &row.note.attachments;
                let mut k: usize = 0;
                while k < refs.len()
                    invariant
                        self.wf(),
                        self.rows@ == old_rows.remove(i as int),
                        self.clock == old(self).clock,
                        self.clients == old(self).clients,
                        *refs == old_rows[i as int].note.attachments,
                        k <= refs@.len(),
                        forall|kk: int| 0 <= kk < k ==> blob_data(self.blobs@, (#[trigger] refs@[kk]).id@) is None,
                    decreases refs@.len() - k,
                {
                    let ghost before = self.blobs@;
                    self.remove_blob(&refs[k].id);
                    proof {
                        assert forall|kk: int| 0 <= kk < k + 1 implies blob_data(self.blobs@, (#[trigger] refs@[kk]).id@) is None by {
                            if kk < k && refs@[kk].id@ != refs@[k as int].id@ {
                                assert(blob_data(before, refs@[kk].id@) is None);
                            }
                        }
                    }
                    k = k + 1;
                }
                proof {
                    lemma_entry_at(old_rows, client_id@, note_id@, i as int);
                }
            },
        }
    }

    /// Registers a device: a fresh client id and a random 32-byte API key in
    /// hex; only the key's SHA-256 (hex) is stored.
    pub fn register(&mut self, req: &AuthRegisterRequest, now: i64) -> (resp: AuthRegisterResponse)
        requires
            old(self).wf(),
        ensures
            final(self).wf(),
            resp.api_key@.len() == 64,
            resp.created_at == now,
            final(self).rows == old(self).rows,
            final(self).blobs == old(self).blobs,
            final(self).clock == old(self).clock,
            final(self).clients@ == old(self).clients@.push(final(self).clients@.last()),
            final(self).clients@.last().id@ == resp.client_id@,
            final(self).clients@.last().api_key_hash@ == api_key_hash(resp.api_key@),
            final(self).clients@.last().device_name@ == req.device_name@,
            final(self).clients@.last().device_type@ == device_type_name(req.device_type),
            final(self).clients@.last().is_active,
            final(self).clients@.last().created_at == now,
            final(self).clients@.last().last_seen_at == now,
    {
        let client_id = new_uuid();
        let key_bytes = random_key_bytes();
        let api_key = hex_encode(&key_bytes);
        proof {
            lemma_hex_len(key_bytes@);
        }
        let digest = sha256(api_key.as_str().as_bytes());
        let hash = hex_encode(&digest);
        self.clients.push(ClientRecord {
            id: client_id.clone(),
            api_key_hash: hash,
            device_name: req.device_name.clone(),
            device_type: req.device_type.as_str().to_string(),
            created_at: now,
            last_seen_at: now,
            is_active: true,
        });
        AuthRegisterResponse { api_key, client_id, created_at: now }
    }

    /// Authenticates an `Authorization` header of the form `Bearer <key>`:
    /// the key's hash must belong to an active client, whose id is returned
    /// and whose `last_seen_at` becomes `now`. Anything else is
    /// `Unauthorized`.
    pub fn authenticate(&mut self, authorization: &str, now: i64) -> (r: Result<String, Error>)
        requires
            old(self).wf(),
        ensures
            final(self).wf(),
            final(self).rows == old(self).rows,
            final(self).blobs == old(self).blobs,
            final(self).clock == old(self).clock,
            final(self).clients@.len() == old(self).clients@.len(),
            r is Ok <==> bearer_token(authorization@) is Some && exists|k: int|
                0 <= k < old(self).clients@.len() && client_matches(
                    #[trigger] old(self).clients@[k],
                    api_key_hash(bearer_token(authorization@)->0),
                ),
            match r {
                Ok(id) => exists|k: int|
                    0 <= k < old(self).clients@.len() && client_matches(
                        #[trigger] old(self).clients@[k],
                        api_key_hash(bearer_token(authorization@)->0),
                    ) && id@ == old(self).clients@[k].id@ && final(self).clients@ == old(self).clients@.update(
                        k,
                        ClientRecord { last_seen_at: now, ..old(self).clients@[k] },
                    ),
                Err(e) => e == Error::Unauthorized && final(self).clients == old(self).clients,
            },
    {
        if !starts_with(authorization, "Bearer ") {
            proof {
                reveal_strlit("Bearer ");
            }
            return Err(Error::Unauthorized);
        }
        proof {
            reveal_strlit("Bearer ");
        }
        let n = authorization.unicode_len();
        let key = authorization.substring_char(7, n);
        let digest = sha256(key.as_bytes());
        let hash = hex_encode(&digest);
        let ghost h = hash@;
        assert(h == api_key_hash(bearer_token(authorization@)->0));
        let mut i: usize = 0;
        while i < self.clients.len()
            invariant
                self.clients == old(self).clients,
                self.rows == old(self).rows,
                self.blobs == old(self).blobs,
                self.clock == old(self).clock,
                self.wf(),
                bearer_token(authorization@) is Some,
                h == api_key_hash(bearer_token(authorization@)->0),
                i <= self.clients@.len(),
                hash@ == h,
                forall|k: int| 0 <= k < i ==> !client_matches(#[trigger] self.clients@[k], h),
            decreases self.clients@.len() - i,
        {
            if self.clients[i].is_active && self.clients[i].api_key_hash == hash {
                let id = self.clients[i].id.clone();
                let c = &self.clients[i];
                let record = ClientRecord {
                    id: c.id.clone(),
                    api_key_hash: c.api_key_hash.clone(),
                    device_name: c.device_name.clone(),
                    device_type: c.device_type.clone(),
                    created_at: c.created_at,
                    last_seen_at: now,
                    is_active: c.is_active,
                };
                self.clients.set(i, record);
                assert(client_matches(old(self).clients@[i as int], h));
                return Ok(id);
            }
            i = i + 1;
        }
        Err(Error::Unauthorized)
    }
}

impl Relay {
    /// Whether every row's server version can take `n` more increments, so
    /// that a push of `n` notes is admissible.
    pub fn versions_fit(&self, client_id: &String, n: u64) -> (r: bool)
        ensures
            r ==> forall|id: Seq<char>| #[trigger] version_room(entry_of(self.rows@, client_id@, id), n as nat),
    {
        if n == u64::MAX {
            return false;
        }
        let mut i: usize = 0;
        while i < self.rows.len()
            invariant
                i <= self.rows@.len(),
                n < u64::MAX,
                forall|j: int| 0 <= j < i ==> (#[trigger] self.rows@[j]).server_version + n < u64::MAX,
            decreases self.rows@.len() - i,
        {
            if self.rows[i].server_version >= u64::MAX - n {
                return false;
            }
            i = i + 1;
        }
        proof {
            assert forall|id: Seq<char>| #[trigger] version_room(entry_of(self.rows@, client_id@, id), n as nat) by {
                if has_row(self.rows@, client_id@, id) {
                    let k = row_index(self.rows@, client_id@, id);
                    assert(self.rows@[k].server_version + n < u64::MAX);
                }
            }
        }
        true
    }
}

/// Whether every row is stamped in order, no later than `clock`, with a
/// positive server version.
pub open spec fn rows_in_order(rows: Seq<RelayRow>, clock: i64) -> bool {
    &&& forall|i: int, j: int|
        0 <= i < j < rows.len() ==> (#[trigger] rows[i]).server_modified_at <= (#[trigger] rows[j]).server_modified_at
    &&& forall|i: int| 0 <= i < rows.len() ==> (#[trigger] rows[i]).server_modified_at <= clock && rows[i].server_version >= 1
}

/// Whether no row after the `i`-th shares its key.
pub open spec fn key_unique_after(rows: Seq<RelayRow>, i: int) -> bool {
    forall|b: int| i < b < rows.len() ==> !same_key(rows[i], (#[trigger] rows[b]).client_id@, rows[b].note.id@)
}

fn check_rows_in_order(rows: &Vec<RelayRow>, clock: i64) -> (r: bool)
    ensures
        r == rows_in_order(rows@, clock),
{
    let mut i: usize = 0;
    while i < rows.len()
        invariant
            i <= rows@.len(),
            forall|a: int| 0 <= a < i ==> (#[trigger] rows@[a]).server_modified_at <= clock && rows@[a].server_version >= 1,
            forall|a: int| 0 < a < i ==> rows@[a - 1].server_modified_at <= (#[trigger] rows@[a]).server_modified_at,
        decreases rows@.len() - i,
    {
        if rows[i].server_modified_at > clock || rows[i].server_version < 1 {
            return false;
        }
        if i > 0 && rows[i - 1].server_modified_at > rows[i].server_modified_at {
            assert(rows@[i - 1].server_modified_at > rows@[i as int].server_modified_at);
            return false;
        }
        i = i + 1;
    }
    assert forall|a: int, b: int| 0 <= a < b < rows@.len() implies (#[trigger] rows@[a]).server_modified_at
        <= (#[trigger] rows@[b]).server_modified_at by {
        lemma_adjacent_order(rows@, a, b);
    }
    true
}

fn check_key_unique_after(rows: &Vec<RelayRow>, i: usize) -> (r: bool)
    requires
        i < rows@.len(),
    ensures
        r == key_unique_after(rows@, i as int),
{
    let n = rows.len();
    let mut j: usize = i + 1;
    while j < n
        invariant
            n == rows@.len(),
            i < j <= rows@.len(),
            forall|b: int| i < b < j ==> !same_key(rows@[i as int], (#[trigger] rows@[b]).client_id@, rows@[b].note.id@),
        decreases rows@.len() - j,
    {
        if rows[i].client_id == rows[j].client_id && rows[i].note.id == rows[j].note.id {
            assert(same_key(rows@[i as int], rows@[j as int].client_id@, rows@[j as int].note.id@));
            return false;
        }
        j = j + 1;
    }
    true
}

fn check_unique_keys(rows: &Vec<RelayRow>) -> (r: bool)
    ensures
        r == unique_keys(rows@),
{
    let mut i: usize = 0;
    while i < rows.len()
        invariant
            i <= rows@.len(),
            forall|a: int| 0 <= a < i ==> #[trigger] key_unique_after(rows@, a),
        decreases rows@.len() - i,
    {
        if !check_key_unique_after(rows, i) {
            assert(!unique_keys(rows@)) by {
                let b = choose|b: int| i < b < rows@.len() && same_key(rows@[i as int], (#[trigger] rows@[b]).client_id@, rows@[b].note.id@);
                assert(same_key(rows@[i as int], rows@[b].client_id@, rows@[b].note.id@));
            }
            return false;
        }
        i = i + 1;
    }
    assert forall|a: int, b: int| 0 <= a < b < rows@.len() implies !same_key(
        #[trigger] rows@[a],
        (#[trigger] rows@[b]).client_id@,
        rows@[b].note.id@,
    ) by {
        assert(key_unique_after(rows@, a));
    }
    true
}

fn check_unique_blobs(blobs: &Vec<AttachmentBlob>) -> (r: bool)
    ensures
        r == unique_blobs(blobs@),
{
    let mut k: usize = 0;
    while k < blobs.len()
        invariant
            k <= blobs@.len(),
            forall|a: int, b: int| 0 <= a < b < blobs@.len() && a < k ==> (#[trigger] blobs@[a]).id@ != (#[trigger] blobs@[b]).id@,
        decreases blobs@.len() - k,
    {
        let mut m: usize = k + 1;
        while m < blobs.len()
            invariant
                k < m <= blobs@.len(),
                forall|b: int| k < b < m ==> blobs@[k as int].id@ != (#[trigger] blobs@[b]).id@,
            decreases blobs@.len() - m,
        {
            if blobs[k].id == blobs[m].id {
                assert(blobs@[k as int].id@ == blobs@[m as int].id@);
                return false;
            }
            m = m + 1;
        }
        k = k + 1;
    }
    true
}

impl Relay {
    /// Checks the invariant of a relay state read back from storage.
    pub fn check_wf(&self) -> (r: bool)
        ensures
            r == self.wf(),
    {
        check_rows_in_order(&self.rows, self.clock) && check_unique_keys(&self.rows) && check_unique_blobs(&self.blobs)
    }
}

/// Order between neighbours gives order between any two rows.
proof fn lemma_adjacent_order(rows: Seq<RelayRow>, a: int, b: int)
    requires
        0 <= a < b < rows.len(),
        forall|x: int| 0 < x < rows.len() ==> rows[x - 1].server_modified_at <= (#[trigger] rows[x]).server_modified_at,
    ensures
        rows[a].server_modified_at <= rows[b].server_modified_at,
    decreases b - a,
{
    if b > a + 1 {
        lemma_adjacent_order(rows, a, b - 1);
    }
    assert(rows[b - 1].server_modified_at <= rows[b].server_modified_at);
}

/// Hex text is two characters per byte.
pub proof fn lemma_hex_len(bytes: Seq<u8>)
    ensures
        hex_lower(bytes).len() == 2 * bytes.len(),
    decreases bytes.len(),
{
    if bytes.len() > 0 {
        lemma_hex_len(bytes.drop_last());
    }
}

/// The server version a row state carries (0 when there is no row).
pub open spec fn version_of(e: Option<Entry>) -> nat {
    match e {
        Some(x) => x.server_version,
        None => 0,
    }
}

/// A note's server version equals the number of accepted writes for it:
/// starting from a state with server version `v` (0 when absent), a
/// sequence of writes leaves `v` plus the number accepted, and a row exists
/// afterwards exactly when one existed or some write was accepted.
pub proof fn lemma_server_version_counts_accepted_writes(e: Option<Entry>, writes: Seq<(i64, i64)>)
    ensures
        version_of(replay(e, writes)) == version_of(e) + accepted_writes(e, writes),
        replay(e, writes) is Some <==> (e is Some || accepted_writes(e, writes) > 0),
    decreases writes.len(),
{
    if writes.len() > 0 {
        lemma_server_version_counts_accepted_writes(e, writes.drop_last());
    }
}

/// Accepted writes never lower a row's `modified_at`, and the row stays.
proof fn lemma_replay_keeps_newest(x: Entry, writes: Seq<(i64, i64)>)
    ensures
        replay(Some(x), writes) is Some,
        replay(Some(x), writes)->0.modified_at >= x.modified_at,
    decreases writes.len(),
{
    if writes.len() > 0 {
        lemma_replay_keeps_newest(x, writes.drop_last());
    }
}

/// Push is monotone: once a write with `modified_at = t` is accepted, any
/// later write with `modified_at <= t` is rejected, whatever was written in
/// between.
pub proof fn lemma_push_monotone(e: Option<Entry>, t: i64, stamp: i64, between: Seq<(i64, i64)>, m: i64)
    requires
        accepts(e, t),
        m <= t,
    ensures
        !accepts(replay(push_entry(e, t, stamp), between), m),
{
    let x = push_entry(e, t, stamp)->0;
    lemma_replay_keeps_newest(x, between);
}

/// Pulling with the `synced_at` of the previous pull as cursor returns no
/// note as long as nothing was written since: every stored stamp is at most
/// the relay's clock, and a pull leaves the clock at its `synced_at`.
pub proof fn lemma_pull_after_pull_is_empty(relay: Relay, client: Seq<char>, synced_at: i64)
    requires
        relay.wf(),
        synced_at >= relay.clock,
    ensures
        change_set(relay.rows@, client, Some(synced_at)).len() == 0,
{
    let rows = relay.rows@;
    let pred = change_pred(client, Some(synced_at));
    assert forall|i: int| 0 <= i < rows.len() implies !pred(#[trigger] rows[i]) by {
        assert(rows[i].server_modified_at <= relay.clock);
    }
    rows.lemma_all_neg_filter_empty(pred);
}

/// A push leaves a row's version room shrunk by at most one increment.
proof fn lemma_version_room_step(e: Option<Entry>, m: i64, stamp: i64, n: nat)
    requires
        version_room(e, n + 1),
    ensures
        version_room(push_entry(e, m, stamp), n),
        version_room(e, n),
{
}

/// Replacing the blob at `i` by one with the same id leaves every other
/// id's data as it was.
proof fn lemma_blob_data_frame(old_blobs: Seq<AttachmentBlob>, i: int, nb: Seq<AttachmentBlob>)
    requires
        unique_blobs(old_blobs),
        0 <= i < old_blobs.len(),
        nb.len() == old_blobs.len(),
        nb[i].id@ == old_blobs[i].id@,
        forall|k: int| 0 <= k < nb.len() && k != i ==> nb[k] == old_blobs[k],
    ensures
        forall|other: Seq<char>| other != old_blobs[i].id@ ==> #[trigger] blob_data(nb, other)
            == blob_data(old_blobs, other),
{
    assert forall|other: Seq<char>| other != old_blobs[i].id@ implies #[trigger] blob_data(nb, other)
        == blob_data(old_blobs, other) by {
        if exists|k: int| 0 <= k < nb.len() && (#[trigger] nb[k]).id@ == other {
            let k = choose|k: int| 0 <= k < nb.len() && (#[trigger] nb[k]).id@ == other;
            assert(k != i);
            assert(nb[k] == old_blobs[k]);
            assert(old_blobs[k].id@ == other);
            let k2 = choose|k: int| 0 <= k < old_blobs.len() && (#[trigger] old_blobs[k]).id@ == other;
            if k2 != k {
                if k2 < k {
                    assert(old_blobs[k2].id@ != old_blobs[k].id@);
                } else {
                    assert(old_blobs[k].id@ != old_blobs[k2].id@);
                }
            }
        } else {
            if exists|k: int| 0 <= k < old_blobs.len() && (#[trigger] old_blobs[k]).id@ == other {
                let k = choose|k: int| 0 <= k < old_blobs.len() && (#[trigger] old_blobs[k]).id@ == other;
                assert(k != i);
                assert(nb[k] == old_blobs[k]);
                assert(nb[k].id@ == other);
            }
        }
    }
}

/// With unique keys, the entry of a key is that of any row holding it.
proof fn lemma_entry_at(rows: Seq<RelayRow>, client: Seq<char>, id: Seq<char>, i: int)
    requires
        0 <= i < rows.len(),
        same_key(rows[i], client, id),
        unique_keys(rows),
    ensures
        has_row(rows, client, id),
        row_index(rows, client, id) == i,
        row_at(rows, client, id) == Some(rows[i]),
        entry_of(rows, client, id) == Some(row_entry(rows[i])),
{
    assert(has_row(rows, client, id));
    let k = row_index(rows, client, id);
    if k < i {
        assert(!same_key(rows[k], rows[i].client_id@, rows[i].note.id@));
    } else if k > i {
        assert(!same_key(rows[i], rows[k].client_id@, rows[k].note.id@));
    }
}

} // verus!
