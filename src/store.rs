//! The encrypted local store: notes and attachments whose sensitive fields
//! are encrypted under the master key, settings, encryption metadata and
//! sync bookkeeping. Every note and attachment operation needs the master
//! key and fails with `KeyRequired` while the store is locked.
use vstd::prelude::*;
use vstd::utf8::*;

use crate::crypto::{CryptoService, EncryptedData, opened_text, seals};
use crate::error::Error;
use crate::note::{Attachment, Note, SyntaxLanguage, newest_first, sort_newest_first};
use crate::protocol::{opt_str_view, clone_opt_str};

verus! {

broadcast use vstd::seq_lib::group_seq_properties;

/// A note row: content and each tag are encrypted.
#[derive(Debug, Clone)]
pub struct StoredNote {
    pub id: String,
    pub created_at: i64,
    pub modified_at: i64,
    pub synced_at: Option<i64>,
    pub content: EncryptedData,
    pub tags: Vec<EncryptedData>,
    pub attachments: Vec<Attachment>,
    pub pinned: bool,
    pub deleted: bool,
    pub deleted_at: Option<i64>,
    pub sync_hash: Option<String>,
    pub version: i64,
    pub word_wrap: bool,
    pub syntax_language: SyntaxLanguage,
}

/// The view of an attachment reference.
pub open spec fn attachment_view(a: Attachment) -> (Seq<char>, Seq<char>, Seq<char>, i64, Seq<char>, Option<Seq<char>>) {
    (a.id@, a.filename@, a.mime_type@, a.size, a.data@, opt_str_view(a.thumbnail_data))
}

pub open spec fn attachments_view(v: Vec<Attachment>) -> Seq<(Seq<char>, Seq<char>, Seq<char>, i64, Seq<char>, Option<Seq<char>>)> {
    v@.map_values(|a: Attachment| attachment_view(a))
}

impl Attachment {
    /// A copy of this attachment reference.
    pub fn duplicate(&self) -> (r: Attachment)
        ensures
            attachment_view(r) == attachment_view(*self),
    {
        Attachment {
            id: self.id.clone(),
            filename: self.filename.clone(),
            mime_type: self.mime_type.clone(),
            size: self.size,
            data: self.data.clone(),
            thumbnail_data: clone_opt_str(&self.thumbnail_data),
        }
    }
}

/// Copies a vector of attachment references.
pub fn clone_attachments(v: &Vec<Attachment>) -> (r: Vec<Attachment>)
    ensures
        attachments_view(r) == attachments_view(*v),
{
    let mut r: Vec<Attachment> = Vec::new();
    let mut i: usize = 0;
    while i < v.len()
        invariant
            i <= v@.len(),
            r@.len() == i,
            forall|j: int| 0 <= j < i ==> attachment_view(r@[j]) == attachment_view(v@[j]),
        decreases v@.len() - i,
    {
        r.push(v[i].duplicate());
        i = i + 1;
    }
    assert(attachments_view(r) =~= attachments_view(*v));
    r
}

/// The fields of a note that a row keeps in the clear, apart from id and
/// version.
pub open spec fn same_clear_fields(row: StoredNote, note: Note) -> bool {
    &&& row.created_at == note.created_at
    &&& row.modified_at == note.modified_at
    &&& row.synced_at == note.synced_at
    &&& attachments_view(row.attachments) == attachments_view(note.attachments)
    &&& row.pinned == note.pinned
    &&& row.deleted == note.deleted
    &&& row.deleted_at == note.deleted_at
    &&& opt_str_view(row.sync_hash) == opt_str_view(note.sync_hash)
    &&& row.word_wrap == note.word_wrap
    &&& row.syntax_language == note.syntax_language
}

/// Whether `row` stores `note` encrypted under `key`.
pub open spec fn stores_note(key: Seq<u8>, row: StoredNote, note: Note) -> bool {
    &&& row.id@ == note.id@
    &&& same_clear_fields(row, note)
    &&& seals(key, encode_utf8(note.content@), row.content)
    &&& row.tags@.len() == note.tags@.len()
    &&& forall|i: int| 0 <= i < row.tags@.len() ==> seals(key, encode_utf8(note.tags@[i]@), #[trigger] row.tags@[i])
}

/// Whether `note` is what `row` decrypts to under `key`.
pub open spec fn opens_note(key: Seq<u8>, row: StoredNote, note: Note) -> bool {
    &&& row.id@ == note.id@
    &&& same_clear_fields(row, note)
    &&& row.version == note.version
    &&& opened_text(key, row.content) == Some(note.content@)
    &&& row.tags@.len() == note.tags@.len()
    &&& forall|i: int| 0 <= i < row.tags@.len() ==> opened_text(key, #[trigger] row.tags@[i]) == Some(note.tags@[i]@)
}

/// Whether `note` is what some row of `rows` decrypts to under `key`.
pub open spec fn opened_from_some(key: Seq<u8>, rows: Seq<StoredNote>, note: Note) -> bool {
    exists|j: int| 0 <= j < rows.len() && opens_note(key, #[trigger] rows[j], note)
}

/// Whether `row` decrypts under `key` to some note of `v`.
pub open spec fn opened_to_some(key: Seq<u8>, row: StoredNote, v: Seq<Note>) -> bool {
    exists|i: int| 0 <= i < v.len() && opens_note(key, row, #[trigger] v[i])
}

/// Whether `v` decrypts `rows` in some order: as many notes as rows, each
/// note opened from some row, and each row opened to some note.
pub open spec fn opens_all(key: Seq<u8>, rows: Seq<StoredNote>, v: Seq<Note>) -> bool {
    &&& v.len() == rows.len()
    &&& forall|i: int| 0 <= i < v.len() ==> opened_from_some(key, rows, #[trigger] v[i])
    &&& forall|j: int| 0 <= j < rows.len() ==> opened_to_some(key, #[trigger] rows[j], v)
}

proof fn lemma_sorted_opens(key: Seq<u8>, rows: Seq<StoredNote>, v0: Seq<Note>, r: Seq<Note>)
    requires
        v0.len() == rows.len(),
        forall|i: int| 0 <= i < v0.len() ==> opens_note(key, rows[i], #[trigger] v0[i]),
        r.to_multiset() == v0.to_multiset(),
    ensures
        opens_all(key, rows, r),
{
    vstd::seq_lib::to_multiset_len(r);
    vstd::seq_lib::to_multiset_len(v0);
    assert forall|i: int| 0 <= i < r.len() implies opened_from_some(key, rows, #[trigger] r[i]) by {
        let x = r[i];
        assert(r.contains(x));
        vstd::seq_lib::to_multiset_contains(r, x);
        vstd::seq_lib::to_multiset_contains(v0, x);
        let j = choose|j: int| 0 <= j < v0.len() && v0[j] == x;
        assert(opens_note(key, rows[j], v0[j]));
    }
    assert forall|j: int| 0 <= j < rows.len() implies opened_to_some(key, #[trigger] rows[j], r) by {
        let x = v0[j];
        assert(v0.contains(x));
        vstd::seq_lib::to_multiset_contains(v0, x);
        vstd::seq_lib::to_multiset_contains(r, x);
        let i = choose|i: int| 0 <= i < r.len() && r[i] == x;
        assert(opens_note(key, rows[j], v0[j]));
        assert(opens_note(key, rows[j], r[i]));
    }
}

/// Whether every part of `row` decrypts under `key`.
pub open spec fn row_opens(key: Seq<u8>, row: StoredNote) -> bool {
    &&& opened_text(key, row.content) is Some
    &&& forall|i: int| 0 <= i < row.tags@.len() ==> (#[trigger] opened_text(key, row.tags@[i])) is Some
}

/// Whether a note fits in an envelope: content and every tag no longer
/// than the AES-GCM message limit.
pub open spec fn note_fits(note: Note) -> bool {
    &&& encode_utf8(note.content@).len() <= crate::crypto::AES_GCM_MAX_PLAINTEXT
    &&& forall|i: int| 0 <= i < note.tags@.len() ==> encode_utf8((#[trigger] note.tags@[i])@).len()
        <= crate::crypto::AES_GCM_MAX_PLAINTEXT
}

/// No two rows share an id.
pub open spec fn unique_ids(rows: Seq<StoredNote>) -> bool {
    forall|a: int, b: int| 0 <= a < b < rows.len() ==> (#[trigger] rows[a]).id@ != (#[trigger] rows[b]).id@
}

pub open spec fn has_note(rows: Seq<StoredNote>, id: Seq<char>) -> bool {
    exists|i: int| 0 <= i < rows.len() && (#[trigger] rows[i]).id@ == id
}

pub open spec fn note_index(rows: Seq<StoredNote>, id: Seq<char>) -> int {
    choose|i: int| 0 <= i < rows.len() && (#[trigger] rows[i]).id@ == id
}

/// The version of the row with id `id`, if there is one.
pub open spec fn version_at(rows: Seq<StoredNote>, id: Seq<char>) -> Option<int> {
    if has_note(rows, id) {
        Some(rows[note_index(rows, id)].version as int)
    } else {
        None
    }
}

/// The modification time of the row with id `id`, if there is one.
pub open spec fn modified_of(rows: Seq<StoredNote>, id: Seq<char>) -> Option<i64> {
    match row_of(rows, id) {
        Some(r) => Some(r.modified_at),
        None => None,
    }
}

/// The row with id `id`, if there is one.
pub open spec fn row_of(rows: Seq<StoredNote>, id: Seq<char>) -> Option<StoredNote> {
    if has_note(rows, id) {
        Some(rows[note_index(rows, id)])
    } else {
        None
    }
}

/// The version a replica is stored with.
pub open spec fn replica_version(v: i64) -> i64 {
    if v >= 1 { v } else { 1 }
}

/// The rows holding id `id`.
pub open spec fn rows_with_id(rows: Seq<StoredNote>, id: Seq<char>) -> Seq<StoredNote> {
    rows.filter(id_pred(id))
}

pub open spec fn id_pred(id: Seq<char>) -> spec_fn(StoredNote) -> bool {
    |r: StoredNote| r.id@ == id
}

/// The rows `list` returns.
pub open spec fn listed(rows: Seq<StoredNote>, include_deleted: bool) -> Seq<StoredNote> {
    rows.filter(selected(if include_deleted { Selection::All } else { Selection::Live }))
}

/// The rows modified strictly after `t`.
pub open spec fn modified_after(rows: Seq<StoredNote>, t: i64) -> Seq<StoredNote> {
    rows.filter(selected(Selection::ModifiedAfter(t)))
}

/// Which rows a query reads.
pub enum Selection {
    All,
    /// Rows not soft-deleted.
    Live,
    /// Rows modified strictly after the given time.
    ModifiedAfter(i64),
}

pub open spec fn selected(sel: Selection) -> spec_fn(StoredNote) -> bool {
    |r: StoredNote| match sel {
        Selection::All => true,
        Selection::Live => !r.deleted,
        Selection::ModifiedAfter(t) => r.modified_at > t,
    }
}

fn selects(sel: &Selection, row: &StoredNote) -> (r: bool)
    ensures
        r == selected(*sel)(*row),
{
    match sel {
        Selection::All => true,
        Selection::Live => !row.deleted,
        Selection::ModifiedAfter(t) => row.modified_at > *t,
    }
}

/// With unique ids, the row of an id is any row holding it.
pub proof fn lemma_note_at(rows: Seq<StoredNote>, id: Seq<char>, i: int)
    requires
        unique_ids(rows),
        0 <= i < rows.len(),
        rows[i].id@ == id,
    ensures
        has_note(rows, id),
        note_index(rows, id) == i,
        version_at(rows, id) == Some(rows[i].version as int),
        modified_of(rows, id) == Some(rows[i].modified_at),
        row_of(rows, id) == Some(rows[i]),
{
    assert(has_note(rows, id));
    let k = note_index(rows, id);
    if k < i {
        assert(rows[k].id@ != rows[i].id@);
    } else if k > i {
        assert(rows[i].id@ != rows[k].id@);
    }
}

/// Ids are unique in the store, so the full listing holds exactly one row
/// for an id that is present, and none for one that is not.
pub proof fn lemma_one_row(rows: Seq<StoredNote>, id: Seq<char>)
    requires
        unique_ids(rows),
    ensures
        rows_with_id(rows, id).len() == if has_note(rows, id) { 1int } else { 0int },
    decreases rows.len(),
{
    let pred = id_pred(id);
    if rows.len() == 0 {
        assert(rows_with_id(rows, id) =~= Seq::<StoredNote>::empty());
    } else {
        let init = rows.drop_last();
        assert(unique_ids(init)) by {
            assert forall|a: int, b: int| 0 <= a < b < init.len() implies (#[trigger] init[a]).id@ != (#[trigger] init[b]).id@ by {
                assert(init[a] == rows[a] && init[b] == rows[b]);
            }
        }
        lemma_one_row(init, id);
        assert(rows == init.push(rows.last()));
        init.lemma_filter_push(rows.last(), pred);
        if rows.last().id@ == id {
            if has_note(init, id) {
                let k = note_index(init, id);
                assert(rows[k].id@ != rows[rows.len() - 1].id@);
            }
            assert(has_note(rows, id));
        } else {
            if has_note(rows, id) {
                let k = note_index(rows, id);
                assert(k < rows.len() - 1);
                assert(init[k] == rows[k]);
            }
            if has_note(init, id) {
                let k = note_index(init, id);
                assert(rows[k] == init[k]);
            }
        }
    }
}

/// The store of one encrypted container.
pub struct NoteStore {
    pub notes: Vec<StoredNote>,
    /// The master key while unlocked.
    pub key: Option<[u8; 32]>,
}

/// What a create, update or delete does to the version of a note id.
pub enum NoteOp {
    Create,
    Update,
    Delete,
}

/// The version an id has after one operation: create starts at 1 where no
/// row exists, update and delete add one where a row exists, and anything
/// else changes nothing.
pub open spec fn version_step(v: Option<int>, op: NoteOp) -> Option<int> {
    match (op, v) {
        (NoteOp::Create, None) => Some(1),
        (NoteOp::Update, Some(x)) => Some(x + 1),
        (NoteOp::Delete, Some(x)) => Some(x + 1),
        _ => v,
    }
}

/// Whether an operation mutates a note in the state `v`.
pub open spec fn mutates(v: Option<int>, op: NoteOp) -> bool {
    version_step(v, op) != v
}

pub open spec fn versions_after(v: Option<int>, ops: Seq<NoteOp>) -> Option<int>
    decreases ops.len(),
{
    if ops.len() == 0 {
        v
    } else {
        version_step(versions_after(v, ops.drop_last()), ops.last())
    }
}

pub open spec fn mutation_count(v: Option<int>, ops: Seq<NoteOp>) -> nat
    decreases ops.len(),
{
    if ops.len() == 0 {
        0
    } else {
        mutation_count(v, ops.drop_last()) + if mutates(versions_after(v, ops.drop_last()), ops.last()) {
            1nat
        } else {
            0nat
        }
    }
}

/// Starting from no row, after any sequence of creates, updates and deletes
/// on one id, a row exists exactly when some operation took effect, and its
/// version is the number of operations that did.
pub proof fn lemma_version_counts_mutations(ops: Seq<NoteOp>)
    ensures
        versions_after(None, ops) == if mutation_count(None, ops) == 0 {
            None
        } else {
            Some(mutation_count(None, ops) as int)
        },
    decreases ops.len(),
{
    if ops.len() > 0 {
        lemma_version_counts_mutations(ops.drop_last());
    }
}

impl NoteStore {
    /// Ids are unique and every version is positive.
    pub open spec fn wf(&self) -> bool {
        &&& unique_ids(self.notes@)
        &&& forall|i: int| 0 <= i < self.notes@.len() ==> (#[trigger] self.notes@[i]).version >= 1
    }

    /// A version of `id` can still be incremented.
    pub open spec fn version_room(&self, id: Seq<char>) -> bool {
        match version_at(self.notes@, id) {
            Some(v) => v < i64::MAX,
            None => true,
        }
    }

    /// An empty, locked store.
    pub fn new() -> (r: NoteStore)
        ensures
            r.wf(),
            r.notes@.len() == 0,
            r.key is None,
    {
        NoteStore { notes: Vec::new(), key: None }
    }

    fn find(&self, id: &String) -> (r: Option<usize>)
        requires
            self.wf(),
        ensures
            match r {
                Some(i) => i < self.notes@.len() && self.notes@[i as int].id@ == id@ && note_index(self.notes@, id@) == i
                    && version_at(self.notes@, id@) == Some(self.notes@[i as int].version as int),
                None => !has_note(self.notes@, id@) && version_at(self.notes@, id@) is None,
            },
    {
        let mut i: usize = 0;
        while i < self.notes.len()
            invariant
                self.wf(),
                i <= self.notes@.len(),
                forall|j: int| 0 <= j < i ==> (#[trigger] self.notes@[j]).id@ != id@,
            decreases self.notes@.len() - i,
        {
            if self.notes[i].id == *id {
                proof {
                    lemma_note_at(self.notes@, id@, i as int);
                }
                return Some(i);
            }
            i = i + 1;
        }
        None
    }

    /// Stores a new note, encrypted, with the given version.
    fn insert_row(&mut self, note: &Note, version: i64) -> (r: Result<(), Error>)
        requires
            old(self).wf(),
            version >= 1,
        ensures
            final(self).wf(),
            final(self).key == old(self).key,
            match r {
                Err(e) => *final(self) == *old(self) && if old(self).key is None {
                    e == Error::KeyRequired
                } else if has_note(old(self).notes@, note.id@) {
                    e == Error::AlreadyExists
                } else {
                    e == Error::EncryptionFailed && !note_fits(*note)
                },
                Ok(()) => {
                    &&& old(self).key is Some
                    &&& !has_note(old(self).notes@, note.id@)
                    &&& note_fits(*note)
                    &&& final(self).notes@.drop_last() == old(self).notes@
                    &&& stores_note(old(self).key->0@, final(self).notes@.last(), *note)
                    &&& final(self).notes@.last().version == version
                },
            },
            version_at(final(self).notes@, note.id@) == if r is Ok {
                Some(version as int)
            } else {
                version_at(old(self).notes@, note.id@)
            },
            forall|id: Seq<char>| id != note.id@ ==> #[trigger] version_at(final(self).notes@, id)
                == version_at(old(self).notes@, id),
            forall|id: Seq<char>| id != note.id@ ==> #[trigger] row_of(final(self).notes@, id)
                == row_of(old(self).notes@, id),
            r is Ok ==> modified_of(final(self).notes@, note.id@) == Some(note.modified_at),
    {
        let key = match &self.key {
            Some(k) => *k,
            None => return Err(Error::KeyRequired),
        };
        match self.find(&note.id) {
            Some(_) => return Err(Error::AlreadyExists),
            None => {},
        }
        let row = NoteStore::seal_note(&key, note, version)?;
        let ghost old_rows = self.notes@;
        self.notes.push(row);
        proof {
            let rows = self.notes@;
            let n = rows.len() - 1;
            assert(rows.drop_last() == old_rows);
            assert forall|a: int, b: int| 0 <= a < b < rows.len() implies (#[trigger] rows[a]).id@ != (#[trigger] rows[b]).id@ by {
                if b == n {
                    assert(rows[a] == old_rows[a]);
                }
            }
            lemma_note_at(rows, note.id@, n);
            assert forall|id: Seq<char>| id != note.id@ implies #[trigger] row_of(rows, id) == row_of(old_rows, id) by {
                if has_note(old_rows, id) {
                    let k = note_index(old_rows, id);
                    lemma_note_at(old_rows, id, k);
                    assert(rows[k] == old_rows[k]);
                    lemma_note_at(rows, id, k);
                } else if has_note(rows, id) {
                    let k = note_index(rows, id);
                    assert(k < n);
                    assert(old_rows[k] == rows[k]);
                }
            }
            assert forall|id: Seq<char>| id != note.id@ implies #[trigger] version_at(rows, id) == version_at(old_rows, id)
                && row_of(rows, id) == row_of(old_rows, id) by {
                if has_note(old_rows, id) {
                    let k = note_index(old_rows, id);
                    lemma_note_at(old_rows, id, k);
                    assert(rows[k] == old_rows[k]);
                    lemma_note_at(rows, id, k);
                } else if has_note(rows, id) {
                    let k = note_index(rows, id);
                    assert(k < n);
                    assert(old_rows[k] == rows[k]);
                }
            }
        }
        Ok(())
    }
    /// Stores a new note, encrypted, with version 1.
    pub fn create(&mut self, note: &Note) -> (r: Result<(), Error>)
        requires
            old(self).wf(),
        ensures
            final(self).wf(),
            final(self).key == old(self).key,
            match r {
                Err(e) => *final(self) == *old(self) && if old(self).key is None {
                    e == Error::KeyRequired
                } else if has_note(old(self).notes@, note.id@) {
                    e == Error::AlreadyExists
                } else {
                    e == Error::EncryptionFailed && !note_fits(*note)
                },
                Ok(()) => {
                    &&& old(self).key is Some
                    &&& !has_note(old(self).notes@, note.id@)
                    &&& note_fits(*note)
                    &&& final(self).notes@.drop_last() == old(self).notes@
                    &&& stores_note(old(self).key->0@, final(self).notes@.last(), *note)
                    &&& final(self).notes@.last().version == 1
                },
            },
            version_at(final(self).notes@, note.id@) == if r is Ok {
                version_step(version_at(old(self).notes@, note.id@), NoteOp::Create)
            } else {
                version_at(old(self).notes@, note.id@)
            },
            forall|id: Seq<char>| id != note.id@ ==> #[trigger] version_at(final(self).notes@, id)
                == version_at(old(self).notes@, id),
            forall|id: Seq<char>| id != note.id@ ==> #[trigger] row_of(final(self).notes@, id)
                == row_of(old(self).notes@, id),
            r is Ok ==> modified_of(final(self).notes@, note.id@) == Some(note.modified_at),
    {
        self.insert_row(note, 1)
    }
    /// Stores a note received from another device, keeping its version
    /// (raised to 1 if it is lower).
    pub fn insert_replica(&mut self, note: &Note) -> (r: Result<(), Error>)
        requires
            old(self).wf(),
        ensures
            final(self).wf(),
            final(self).key == old(self).key,
            match r {
                Err(e) => *final(self) == *old(self) && if old(self).key is None {
                    e == Error::KeyRequired
                } else if has_note(old(self).notes@, note.id@) {
                    e == Error::AlreadyExists
                } else {
                    e == Error::EncryptionFailed && !note_fits(*note)
                },
                Ok(()) => {
                    &&& old(self).key is Some
                    &&& !has_note(old(self).notes@, note.id@)
                    &&& note_fits(*note)
                    &&& final(self).notes@.drop_last() == old(self).notes@
                    &&& stores_note(old(self).key->0@, final(self).notes@.last(), *note)
                    &&& final(self).notes@.last().version == replica_version(note.version)
                },
            },
            version_at(final(self).notes@, note.id@) == if r is Ok {
                Some(replica_version(note.version) as int)
            } else {
                version_at(old(self).notes@, note.id@)
            },
            forall|id: Seq<char>| id != note.id@ ==> #[trigger] version_at(final(self).notes@, id)
                == version_at(old(self).notes@, id),
            forall|id: Seq<char>| id != note.id@ ==> #[trigger] row_of(final(self).notes@, id)
                == row_of(old(self).notes@, id),
            r is Ok ==> modified_of(final(self).notes@, note.id@) == Some(note.modified_at),
    {
        let version = if note.version >= 1 { note.version } else { 1 };
        self.insert_row(note, version)
    }

    /// The position of the row with id `id`, if stored.
    pub fn index_of(&self, id: &String) -> (r: Option<usize>)
        requires
            self.wf(),
        ensures
            match r {
                Some(i) => i < self.notes@.len() && row_of(self.notes@, id@) == Some(self.notes@[i as int]),
                None => row_of(self.notes@, id@) is None,
            },
    {
        self.find(id)
    }

    /// Replaces a stored note (whole-note replacement), keeping its
    /// creation time and raising its version by one.
    pub fn update(&mut self, note: &Note) -> (r: Result<(), Error>)
        requires
            old(self).wf(),
            old(self).version_room(note.id@),
        ensures
            final(self).wf(),
            final(self).key == old(self).key,
            match r {
                Err(e) => *final(self) == *old(self) && if old(self).key is None {
                    e == Error::KeyRequired
                } else if !has_note(old(self).notes@, note.id@) {
                    e == Error::NotFound
                } else {
                    e == Error::EncryptionFailed && !note_fits(*note)
                },
                Ok(()) => {
                    let i = note_index(old(self).notes@, note.id@);
                    let old_row = old(self).notes@[i];
                    &&& old(self).key is Some
                    &&& has_note(old(self).notes@, note.id@)
                    &&& note_fits(*note)
                    &&& final(self).notes@.len() == old(self).notes@.len()
                    &&& forall|k: int| 0 <= k < old(self).notes@.len() && k != i ==> #[trigger] final(self).notes@[k]
                        == old(self).notes@[k]
                    &&& stores_note(old(self).key->0@, final(self).notes@[i], Note { created_at: old_row.created_at, ..*note })
                    &&& final(self).notes@[i].version == old_row.version + 1
                },
            },
            version_at(final(self).notes@, note.id@) == if r is Ok {
                version_step(version_at(old(self).notes@, note.id@), NoteOp::Update)
            } else {
                version_at(old(self).notes@, note.id@)
            },
            forall|id: Seq<char>| id != note.id@ ==> #[trigger] version_at(final(self).notes@, id)
                == version_at(old(self).notes@, id),
            forall|id: Seq<char>| id != note.id@ ==> #[trigger] row_of(final(self).notes@, id)
                == row_of(old(self).notes@, id),
            r is Ok ==> modified_of(final(self).notes@, note.id@) == Some(note.modified_at),
    {
        let key = match &self.key {
            Some(k) => *k,
            None => return Err(Error::KeyRequired),
        };
        let i = match self.find(&note.id) {
            Some(i) => i,
            None => return Err(Error::NotFound),
        };
        let version = self.notes[i].version + 1;
        let mut row = NoteStore::seal_note(&key, note, version)?;
        row.created_at = self.notes[i].created_at;
        let ghost old_rows = self.notes@;
        self.notes.set(i, row);
        proof {
            let rows = self.notes@;
            assert forall|a: int, b: int| 0 <= a < b < rows.len() implies (#[trigger] rows[a]).id@ != (#[trigger] rows[b]).id@ by {
                assert(old_rows[a].id@ != old_rows[b].id@);
            }
            lemma_note_at(rows, note.id@, i as int);
            assert forall|id: Seq<char>| id != note.id@ implies #[trigger] row_of(rows, id) == row_of(old_rows, id) by {
                if has_note(old_rows, id) {
                    let k = note_index(old_rows, id);
                    lemma_note_at(old_rows, id, k);
                    assert(rows[k] == old_rows[k]);
                    lemma_note_at(rows, id, k);
                } else if has_note(rows, id) {
                    let k = note_index(rows, id);
                    assert(old_rows[k] == rows[k]);
                }
            }
            assert forall|id: Seq<char>| id != note.id@ implies #[trigger] version_at(rows, id) == version_at(old_rows, id)
                && row_of(rows, id) == row_of(old_rows, id) by {
                if has_note(old_rows, id) {
                    let k = note_index(old_rows, id);
                    lemma_note_at(old_rows, id, k);
                    assert(rows[k] == old_rows[k]);
                    lemma_note_at(rows, id, k);
                } else if has_note(rows, id) {
                    let k = note_index(rows, id);
                    assert(old_rows[k] == rows[k]);
                }
            }
        }
        Ok(())
    }

    /// Soft-deletes a note at `now`: it stays, flagged deleted, with
    /// `deleted_at` and `modified_at` set to `now` and its version raised
    /// by one. Deleting an unknown id changes nothing.
    pub fn delete_at(&mut self, id: &String, now: i64) -> (r: Result<(), Error>)
        requires
            old(self).wf(),
            old(self).version_room(id@),
        ensures
            final(self).wf(),
            final(self).key == old(self).key,
            r is Err <==> old(self).key is None,
            r is Err ==> r->Err_0 == Error::KeyRequired,
            (r is Err || !has_note(old(self).notes@, id@)) ==> *final(self) == *old(self),
            (r is Ok && has_note(old(self).notes@, id@)) ==> {
                let i = note_index(old(self).notes@, id@);
                let old_row = old(self).notes@[i];
                &&& final(self).notes@ == old(self).notes@.update(i, StoredNote {
                    deleted: true,
                    deleted_at: Some(now),
                    modified_at: now,
                    version: (old_row.version + 1) as i64,
                    ..old_row
                })
            },
            version_at(final(self).notes@, id@) == if r is Ok {
                version_step(version_at(old(self).notes@, id@), NoteOp::Delete)
            } else {
                version_at(old(self).notes@, id@)
            },
            forall|other: Seq<char>| other != id@ ==> #[trigger] version_at(final(self).notes@, other)
                == version_at(old(self).notes@, other),
    {
        if self.key.is_none() {
            return Err(Error::KeyRequired);
        }
        let i = match self.find(id) {
            Some(i) => i,
            None => return Ok(()),
        };
        let ghost old_rows = self.notes@;
        let mut row = self.notes.remove(i);
        row.deleted = true;
        row.deleted_at = Some(now);
        row.modified_at = now;
        row.version = row.version + 1;
        self.notes.insert(i, row);
        proof {
            let rows = self.notes@;
            assert(rows =~= old_rows.update(i as int, rows[i as int]));
            assert forall|a: int, b: int| 0 <= a < b < rows.len() implies (#[trigger] rows[a]).id@ != (#[trigger] rows[b]).id@ by {
                assert(old_rows[a].id@ != old_rows[b].id@);
            }
            lemma_note_at(rows, id@, i as int);
            assert forall|other: Seq<char>| other != id@ implies #[trigger] version_at(rows, other) == version_at(old_rows, other) by {
                if has_note(old_rows, other) {
                    let k = note_index(old_rows, other);
                    lemma_note_at(old_rows, other, k);
                    assert(rows[k] == old_rows[k]);
                    lemma_note_at(rows, other, k);
                } else if has_note(rows, other) {
                    let k = note_index(rows, other);
                    assert(old_rows[k] == rows[k]);
                }
            }
        }
        Ok(())
    }

    /// Removes a note for good. Removing an unknown id changes nothing.
    pub fn hard_delete(&mut self, id: &String) -> (r: Result<(), Error>)
        requires
            old(self).wf(),
        ensures
            final(self).wf(),
            final(self).key == old(self).key,
            r is Err <==> old(self).key is None,
            r is Err ==> r->Err_0 == Error::KeyRequired,
            (r is Err || !has_note(old(self).notes@, id@)) ==> *final(self) == *old(self),
            (r is Ok && has_note(old(self).notes@, id@)) ==> final(self).notes@
                == old(self).notes@.remove(note_index(old(self).notes@, id@)),
            r is Ok ==> !has_note(final(self).notes@, id@),
            forall|other: Seq<char>| other != id@ ==> #[trigger] row_of(final(self).notes@, other)
                == row_of(old(self).notes@, other),
    {
        if self.key.is_none() {
            return Err(Error::KeyRequired);
        }
        match self.find(id) {
            None => {},
            Some(i) => {
                let ghost old_rows = self.notes@;
                let _gone = self.notes.remove(i);
                proof {
                    let rows = self.notes@;
                    assert forall|a: int, b: int| 0 <= a < b < rows.len() implies (#[trigger] rows[a]).id@
                        != (#[trigger] rows[b]).id@ by {
                        let ka = if a < i { a } else { a + 1 };
                        let kb = if b < i { b } else { b + 1 };
                        assert(rows[a] == old_rows[ka] && rows[b] == old_rows[kb]);
                    }
                    if has_note(rows, id@) {
                        let k = note_index(rows, id@);
                        let kk = if k < i { k } else { k + 1 };
                        assert(rows[k] == old_rows[kk]);
                        if kk < i {
                            assert(old_rows[kk].id@ != old_rows[i as int].id@);
                        } else {
                            assert(old_rows[i as int].id@ != old_rows[kk].id@);
                        }
                    }
                    assert forall|other: Seq<char>| other != id@ implies #[trigger] row_of(rows, other)
                        == row_of(old_rows, other) by {
                        if has_note(old_rows, other) {
                            let k = note_index(old_rows, other);
                            lemma_note_at(old_rows, other, k);
                            assert(k != i);
                            let a = if k < i { k } else { k - 1 };
                            assert(rows[a] == old_rows[k]);
                            lemma_note_at(rows, other, a);
                        } else if has_note(rows, other) {
                            let a = note_index(rows, other);
                            let k = if a < i { a } else { a + 1 };
                            assert(old_rows[k] == rows[a]);
                        }
                    }
                }
            },
        }
        Ok(())
    }

    /// The decrypted note with id `id`.
    pub fn get(&self, id: &String) -> (r: Result<Note, Error>)
        requires
            self.wf(),
        ensures
            match r {
                Ok(n) => self.key is Some && has_note(self.notes@, id@)
                    && opens_note(self.key->0@, self.notes@[note_index(self.notes@, id@)], n),
                Err(e) => if self.key is None {
                    e == Error::KeyRequired
                } else if !has_note(self.notes@, id@) {
                    e == Error::NotFound
                } else {
                    e == Error::AuthenticationFailed && !row_opens(self.key->0@, self.notes@[note_index(self.notes@, id@)])
                },
            },
    {
        let key = match &self.key {
            Some(k) => k,
            None => return Err(Error::KeyRequired),
        };
        match self.find(id) {
            None => Err(Error::NotFound),
            Some(i) => NoteStore::open_note(key, &self.notes[i]),
        }
    }

    /// All notes, decrypted, most recently modified first; soft-deleted
    /// ones only when `include_deleted`.
    pub fn list(&self, include_deleted: bool) -> (r: Result<Vec<Note>, Error>)
        ensures
            match r {
                Ok(v) => self.key is Some && opens_all(self.key->0@, listed(self.notes@, include_deleted), v@)
                    && newest_first(v@),
                Err(e) => if self.key is None {
                    e == Error::KeyRequired
                } else {
                    e == Error::AuthenticationFailed && exists|i: int| 0 <= i < listed(self.notes@, include_deleted).len()
                        && !row_opens(self.key->0@, #[trigger] listed(self.notes@, include_deleted)[i])
                },
            },
    {
        let key = match &self.key {
            Some(k) => k,
            None => return Err(Error::KeyRequired),
        };
        let sel = if include_deleted { Selection::All } else { Selection::Live };
        assert(listed(self.notes@, include_deleted) == self.notes@.filter(selected(sel)));
        match self.open_selected(key, sel) {
            Ok(v) => {
                let ghost v0 = v@;
                let sorted = sort_newest_first(v);
                proof {
                    lemma_sorted_opens(key@, listed(self.notes@, include_deleted), v0, sorted@);
                }
                Ok(sorted)
            },
            Err(e) => Err(e),
        }
    }

    /// The notes modified strictly after `t` (soft-deleted ones included),
    /// decrypted, most recently modified first.
    pub fn get_modified_after(&self, t: i64) -> (r: Result<Vec<Note>, Error>)
        ensures
            match r {
                Ok(v) => self.key is Some && opens_all(self.key->0@, modified_after(self.notes@, t), v@)
                    && newest_first(v@),
                Err(e) => if self.key is None {
                    e == Error::KeyRequired
                } else {
                    e == Error::AuthenticationFailed && exists|i: int| 0 <= i < modified_after(self.notes@, t).len()
                        && !row_opens(self.key->0@, #[trigger] modified_after(self.notes@, t)[i])
                },
            },
    {
        let key = match &self.key {
            Some(k) => k,
            None => return Err(Error::KeyRequired),
        };
        assert(modified_after(self.notes@, t) == self.notes@.filter(selected(Selection::ModifiedAfter(t))));
        match self.open_selected(key, Selection::ModifiedAfter(t)) {
            Ok(v) => {
                let ghost v0 = v@;
                let sorted = sort_newest_first(v);
                proof {
                    lemma_sorted_opens(key@, modified_after(self.notes@, t), v0, sorted@);
                }
                Ok(sorted)
            },
            Err(e) => Err(e),
        }
    }

    /// The number of notes; soft-deleted ones only when `include_deleted`.
    pub fn count(&self, include_deleted: bool) -> (r: Result<u64, Error>)
        ensures
            match r {
                Ok(n) => self.key is Some && n == listed(self.notes@, include_deleted).len(),
                Err(e) => e == Error::KeyRequired && self.key is None,
            },
    {
        if self.key.is_none() {
            return Err(Error::KeyRequired);
        }
        let ghost pred = selected(if include_deleted { Selection::All } else { Selection::Live });
        let mut n: u64 = 0;
        let mut i: usize = 0;
        while i < self.notes.len()
            invariant
                i <= self.notes@.len(),
                pred == selected(if include_deleted { Selection::All } else { Selection::Live }),
                n == self.notes@.take(i as int).filter(pred).len(),
            decreases self.notes@.len() - i,
        {
            proof {
                let rows = self.notes@;
                assert(rows.take(i + 1) == rows.take(i as int).push(rows[i as int]));
                rows.take(i as int).lemma_filter_push(rows[i as int], pred);
                rows.take(i as int).lemma_filter_len(pred);
            }
            if include_deleted || !self.notes[i].deleted {
                n = n + 1;
            }
            i = i + 1;
        }
        proof {
            assert(self.notes@.take(self.notes@.len() as int) == self.notes@);
        }
        Ok(n)
    }

    /// The clear modification time of the note with id `id`, if stored.
    pub fn modified_at_of(&self, id: &String) -> (r: Option<i64>)
        requires
            self.wf(),
        ensures
            match r {
                Some(t) => has_note(self.notes@, id@) && t == self.notes@[note_index(self.notes@, id@)].modified_at,
                None => !has_note(self.notes@, id@),
            },
    {
        match self.find(id) {
            Some(i) => Some(self.notes[i].modified_at),
            None => None,
        }
    }

    /// Encrypts a note into a row carrying `version`.
    fn seal_note(key: &[u8; 32], note: &Note, version: i64) -> (r: Result<StoredNote, Error>)
        ensures
            r is Ok <==> note_fits(*note),
            match r {
                Ok(row) => stores_note(key@, row, *note) && row.version == version,
                Err(e) => e == Error::EncryptionFailed,
            },
    {
        let crypto = CryptoService::new();
        let content = crypto.encrypt_text(note.content.as_str(), key)?;
        let mut tags: Vec<EncryptedData> = Vec::new();
        let mut i: usize = 0;
        while i < note.tags.len()
            invariant
                i <= note.tags@.len(),
                tags@.len() == i,
                forall|j: int| 0 <= j < i ==> seals(key@, encode_utf8(note.tags@[j]@), #[trigger] tags@[j]),
                forall|j: int| 0 <= j < i ==> encode_utf8((#[trigger] note.tags@[j])@).len()
                    <= crate::crypto::AES_GCM_MAX_PLAINTEXT,
            decreases note.tags@.len() - i,
        {
            let t = crypto.encrypt_text(note.tags[i].as_str(), key)?;
            tags.push(t);
            i = i + 1;
        }
        Ok(StoredNote {
            id: note.id.clone(),
            created_at: note.created_at,
            modified_at: note.modified_at,
            synced_at: note.synced_at,
            content,
            tags,
            attachments: clone_attachments(&note.attachments),
            pinned: note.pinned,
            deleted: note.deleted,
            deleted_at: note.deleted_at,
            sync_hash: clone_opt_str(&note.sync_hash),
            version,
            word_wrap: note.word_wrap,
            syntax_language: note.syntax_language,
        })
    }

    /// Decrypts the selected rows, in stored order.
    fn open_selected(&self, key: &[u8; 32], sel: Selection) -> (r: Result<Vec<Note>, Error>)
        ensures
            r is Ok <==> forall|i: int| 0 <= i < self.notes@.filter(selected(sel)).len()
                ==> row_opens(key@, #[trigger] self.notes@.filter(selected(sel))[i]),
            match r {
                Ok(v) => v@.len() == self.notes@.filter(selected(sel)).len() && forall|i: int|
                    0 <= i < v@.len() ==> opens_note(key@, self.notes@.filter(selected(sel))[i], #[trigger] v@[i]),
                Err(e) => e == Error::AuthenticationFailed,
            },
    {
        let ghost pred = selected(sel);
        let mut out: Vec<Note> = Vec::new();
        let mut i: usize = 0;
        while i < self.notes.len()
            invariant
                i <= self.notes@.len(),
                pred == selected(sel),
                out@.len() == self.notes@.take(i as int).filter(pred).len(),
                forall|k: int| 0 <= k < out@.len() ==> opens_note(key@, self.notes@.take(i as int).filter(pred)[k], #[trigger] out@[k]),
                forall|k: int| 0 <= k < out@.len() ==> row_opens(key@, #[trigger] self.notes@.take(i as int).filter(pred)[k]),
            decreases self.notes@.len() - i,
        {
            let ghost rows = self.notes@;
            proof {
                assert(rows.take(i + 1) == rows.take(i as int).push(rows[i as int]));
                rows.take(i as int).lemma_filter_push(rows[i as int], pred);
            }
            if selects(&sel, &self.notes[i]) {
                match NoteStore::open_note(key, &self.notes[i]) {
                    Ok(n) => {
                        out.push(n);
                    },
                    Err(e) => {
                        proof {
                            let f = rows.filter(pred);
                            let k = rows.take(i as int).filter(pred).len() as int;
                            assert(rows.take(i + 1).filter(pred)[k] == rows[i as int]);
                            assert(rows == rows.take(i + 1) + rows.subrange(i + 1, rows.len() as int));
                            Seq::filter_distributes_over_add(rows.take(i + 1), rows.subrange(i + 1, rows.len() as int), pred);
                            assert(f[k] == rows[i as int]);
                            assert(!row_opens(key@, f[k]));
                        }
                        return Err(e);
                    },
                }
            }
            i = i + 1;
        }
        proof {
            assert(self.notes@.take(self.notes@.len() as int) == self.notes@);
        }
        Ok(out)
    }

    /// Decrypts a row.
    pub fn open_note(key: &[u8; 32], row: &StoredNote) -> (r: Result<Note, Error>)
        ensures
            r is Ok <==> row_opens(key@, *row),
            match r {
                Ok(n) => opens_note(key@, *row, n),
                Err(e) => e == Error::AuthenticationFailed,
            },
    {
        let crypto = CryptoService::new();
        let content = crypto.decrypt_text(&row.content, key)?;
        let mut tags: Vec<String> = Vec::new();
        let mut i: usize = 0;
        while i < row.tags.len()
            invariant
                i <= row.tags@.len(),
                tags@.len() == i,
                forall|j: int| 0 <= j < i ==> opened_text(key@, #[trigger] row.tags@[j]) == Some(tags@[j]@),
            decreases row.tags@.len() - i,
        {
            let t = crypto.decrypt_text(&row.tags[i], key)?;
            tags.push(t);
            i = i + 1;
        }
        Ok(Note {
            id: row.id.clone(),
            created_at: row.created_at,
            modified_at: row.modified_at,
            synced_at: row.synced_at,
            content,
            tags,
            attachments: clone_attachments(&row.attachments),
            pinned: row.pinned,
            deleted: row.deleted,
            deleted_at: row.deleted_at,
            sync_hash: clone_opt_str(&row.sync_hash),
            version: row.version,
            word_wrap: row.word_wrap,
            syntax_language: row.syntax_language,
        })
    }
}

} // verus!
