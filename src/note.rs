//! The note, the unit of synchronisation, and its attachments.
use vstd::prelude::*;

use crate::codec::{lowercase, same_text, to_lowercase};
use crate::system::{new_uuid, now_millis};

verus! {

/// Syntax highlighting language of a note.
#[derive(Debug, Clone, Copy, PartialEq, Eq, Structural)]
pub enum SyntaxLanguage {
    Plain,
    Javascript,
    Python,
    Markdown,
    Json,
    Html,
    Css,
    Sql,
    Bash,
}

/// The language a (lower-case) name or alias stands for.
pub open spec fn syntax_language_named(name: Seq<char>) -> Option<SyntaxLanguage> {
    if name == "plain"@ {
        Some(SyntaxLanguage::Plain)
    } else if name == "javascript"@ || name == "js"@ {
        Some(SyntaxLanguage::Javascript)
    } else if name == "python"@ || name == "py"@ {
        Some(SyntaxLanguage::Python)
    } else if name == "markdown"@ || name == "md"@ {
        Some(SyntaxLanguage::Markdown)
    } else if name == "json"@ {
        Some(SyntaxLanguage::Json)
    } else if name == "html"@ {
        Some(SyntaxLanguage::Html)
    } else if name == "css"@ {
        Some(SyntaxLanguage::Css)
    } else if name == "sql"@ {
        Some(SyntaxLanguage::Sql)
    } else if name == "bash"@ || name == "sh"@ {
        Some(SyntaxLanguage::Bash)
    } else {
        None
    }
}

/// The canonical name of a language.
pub open spec fn syntax_language_name(l: SyntaxLanguage) -> Seq<char> {
    match l {
        SyntaxLanguage::Plain => "plain"@,
        SyntaxLanguage::Javascript => "javascript"@,
        SyntaxLanguage::Python => "python"@,
        SyntaxLanguage::Markdown => "markdown"@,
        SyntaxLanguage::Json => "json"@,
        SyntaxLanguage::Html => "html"@,
        SyntaxLanguage::Css => "css"@,
        SyntaxLanguage::Sql => "sql"@,
        SyntaxLanguage::Bash => "bash"@,
    }
}

impl SyntaxLanguage {
    /// The canonical lower-case name.
    pub fn as_str(&self) -> (r: &'static str)
        ensures
            r@ == syntax_language_name(*self),
    {
        match self {
            SyntaxLanguage::Plain => "plain",
            SyntaxLanguage::Javascript => "javascript",
            SyntaxLanguage::Python => "python",
            SyntaxLanguage::Markdown => "markdown",
            SyntaxLanguage::Json => "json",
            SyntaxLanguage::Html => "html",
            SyntaxLanguage::Css => "css",
            SyntaxLanguage::Sql => "sql",
            SyntaxLanguage::Bash => "bash",
        }
    }

    /// Parses a name or alias, ignoring case.
    pub fn parse(s: &str) -> (r: Result<SyntaxLanguage, String>)
        ensures
            match r {
                Ok(l) => syntax_language_named(lowercase(s@)) == Some(l),
                Err(_) => syntax_language_named(lowercase(s@)) is None,
            },
    {
        let lower = to_lowercase(s);
        let l = lower.as_str();
        if same_text(l, "plain") {
            Ok(SyntaxLanguage::Plain)
        } else if same_text(l, "javascript") || same_text(l, "js") {
            Ok(SyntaxLanguage::Javascript)
        } else if same_text(l, "python") || same_text(l, "py") {
            Ok(SyntaxLanguage::Python)
        } else if same_text(l, "markdown") || same_text(l, "md") {
            Ok(SyntaxLanguage::Markdown)
        } else if same_text(l, "json") {
            Ok(SyntaxLanguage::Json)
        } else if same_text(l, "html") {
            Ok(SyntaxLanguage::Html)
        } else if same_text(l, "css") {
            Ok(SyntaxLanguage::Css)
        } else if same_text(l, "sql") {
            Ok(SyntaxLanguage::Sql)
        } else if same_text(l, "bash") || same_text(l, "sh") {
            Ok(SyntaxLanguage::Bash)
        } else {
            let mut msg = "Unknown syntax language: ".to_string();
            msg.append(s);
            Err(msg)
        }
    }

    /// Parses a name, falling back to plain text for unknown names.
    pub fn parse_or_plain(s: &str) -> (r: SyntaxLanguage)
        ensures
            r == match syntax_language_named(lowercase(s@)) {
                Some(l) => l,
                None => SyntaxLanguage::Plain,
            },
    {
        match SyntaxLanguage::parse(s) {
            Ok(l) => l,
            Err(_) => SyntaxLanguage::Plain,
        }
    }
}

impl Default for SyntaxLanguage {
    fn default() -> (r: Self)
        ensures
            r == SyntaxLanguage::Plain,
    {
        SyntaxLanguage::Plain
    }
}

impl std::str::FromStr for SyntaxLanguage {
    type Err = String;

    fn from_str(s: &str) -> Result<Self, String> {
        SyntaxLanguage::parse(s)
    }
}

/// A file attached to a note; the file name is encrypted, `data` refers to
/// the encrypted blob.
#[derive(Debug, Clone)]
pub struct Attachment {
    pub id: String,
    pub filename: String,
    pub mime_type: String,
    pub size: i64,
    pub data: String,
    pub thumbnail_data: Option<String>,
}

impl Attachment {
    /// A new attachment reference under a fresh random id.
    pub fn new(filename: String, mime_type: String, size: i64, data: String) -> (r: Attachment)
        ensures
            r.id@.len() == 36,
            r.filename == filename,
            r.mime_type == mime_type,
            r.size == size,
            r.data == data,
            r.thumbnail_data is None,
    {
        Attachment { id: new_uuid(), filename, mime_type, size, data, thumbnail_data: None }
    }
}

/// A note as a client holds it, decrypted. Times are milliseconds since
/// the Unix epoch.
#[derive(Debug, Clone)]
pub struct Note {
    pub id: String,
    pub created_at: i64,
    pub modified_at: i64,
    pub synced_at: Option<i64>,
    pub content: String,
    pub tags: Vec<String>,
    pub attachments: Vec<Attachment>,
    pub pinned: bool,
    pub deleted: bool,
    pub deleted_at: Option<i64>,
    pub sync_hash: Option<String>,
    /// Bumped on every mutation.
    pub version: i64,
    pub word_wrap: bool,
    pub syntax_language: SyntaxLanguage,
}

/// Whether `n` is a freshly made note with this id, content and time.
pub open spec fn is_fresh_note(n: Note, content: Seq<char>, now: i64) -> bool {
    &&& n.created_at == now
    &&& n.modified_at == now
    &&& n.synced_at is None
    &&& n.content@ == content
    &&& n.tags@.len() == 0
    &&& n.attachments@.len() == 0
    &&& !n.pinned
    &&& !n.deleted
    &&& n.deleted_at is None
    &&& n.sync_hash is None
    &&& n.version == 1
    &&& n.word_wrap
    &&& n.syntax_language == SyntaxLanguage::Plain
}

/// Whether notes are ordered newest modification first.
pub open spec fn newest_first(notes: Seq<Note>) -> bool {
    forall|i: int, j: int| 0 <= i < j < notes.len() ==> (#[trigger] notes[i]).modified_at >= (#[trigger] notes[j]).modified_at
}

/// The same notes, most recently modified first.
pub fn sort_newest_first(notes: Vec<Note>) -> (r: Vec<Note>)
    ensures
        r@.to_multiset() == notes@.to_multiset(),
        newest_first(r@),
{
    let ghost all = notes@.to_multiset();
    let mut rest = notes;
    let mut out: Vec<Note> = Vec::new();
    proof {
        vstd::seq_lib::to_multiset_len(out@);
        vstd::multiset::lemma_multiset_empty_len(out@.to_multiset());
        assert(out@.to_multiset().add(rest@.to_multiset()) =~= all);
    }
    while rest.len() > 0
        invariant
            out@.to_multiset().add(rest@.to_multiset()) == all,
            newest_first(out@),
        decreases rest@.len(),
    {
        let ghost before = rest@;
        let n = rest.pop().unwrap();
        proof {
            assert(before == rest@.push(n));
        }
        let mut p: usize = 0;
        while p < out.len() && out[p].modified_at >= n.modified_at
            invariant
                p <= out@.len(),
                forall|k: int| 0 <= k < p ==> (#[trigger] out@[k]).modified_at >= n.modified_at,
            decreases out@.len() - p,
        {
            p = p + 1;
        }
        let ghost old_out = out@;
        out.insert(p, n);
        proof {
            assert(out@ == old_out.insert(p as int, n));
            vstd::seq_lib::to_multiset_insert(old_out, p as int, n);
            vstd::seq_lib::to_multiset_build(rest@, n);
            assert(out@.to_multiset().add(rest@.to_multiset()) =~= old_out.to_multiset().add(before.to_multiset()));
            assert forall|i: int, j: int| 0 <= i < j < out@.len() implies (#[trigger] out@[i]).modified_at
                >= (#[trigger] out@[j]).modified_at by {
                if j < p {
                    assert(out@[i] == old_out[i] && out@[j] == old_out[j]);
                } else if j == p {
                    assert(out@[i] == old_out[i]);
                } else if i == p {
                    assert(out@[j] == old_out[j - 1]);
                    assert(old_out[p as int].modified_at < n.modified_at);
                    if j - 1 > p {
                        assert(old_out[p as int].modified_at >= old_out[j - 1].modified_at);
                    }
                } else if i < p {
                    assert(out@[i] == old_out[i] && out@[j] == old_out[j - 1]);
                } else {
                    assert(out@[i] == old_out[i - 1] && out@[j] == old_out[j - 1]);
                }
            }
        }
    }
    proof {
        assert(rest@ =~= Seq::<Note>::empty());
        vstd::seq_lib::to_multiset_len(out@);
        vstd::multiset::lemma_multiset_empty_len(out@.to_multiset());
        assert(out@.to_multiset().add(rest@.to_multiset()) =~= out@.to_multiset());
    }
    out
}

impl Note {
    /// A new note with the given id and content, created at `now`.
    pub fn with_id(id: String, content: String, now: i64) -> (r: Note)
        ensures
            r.id == id,
            is_fresh_note(r, content@, now),
    {
        Note {
            id,
            created_at: now,
            modified_at: now,
            synced_at: None,
            content,
            tags: Vec::new(),
            attachments: Vec::new(),
            pinned: false,
            deleted: false,
            deleted_at: None,
            sync_hash: None,
            version: 1,
            word_wrap: true,
            syntax_language: SyntaxLanguage::Plain,
        }
    }

    /// A new note under a fresh random id, created now.
    pub fn new(content: String) -> (r: Note)
        ensures
            r.id@.len() == 36,
            is_fresh_note(r, content@, r.created_at),
    {
        let now = now_millis();
        Note::with_id(new_uuid(), content, now)
    }

    /// Records a mutation at `now`: the modification time becomes `now` and
    /// the version goes up by one.
    pub fn touch_at(&mut self, now: i64)
        requires
            old(self).version < i64::MAX,
        ensures
            *final(self) == (Note { modified_at: now, version: (old(self).version + 1) as i64, ..*old(self) }),
    {
        self.modified_at = now;
        self.version = self.version + 1;
    }

    /// Records a mutation now.
    pub fn touch(&mut self)
        requires
            old(self).version < i64::MAX,
        ensures
            *final(self) == (Note { modified_at: final(self).modified_at, version: (old(self).version + 1) as i64, ..*old(self) }),
    {
        let now = now_millis();
        self.touch_at(now);
    }

    /// Soft-deletes the note at `now`.
    pub fn mark_deleted_at(&mut self, now: i64)
        requires
            old(self).version < i64::MAX,
        ensures
            *final(self) == (Note {
                deleted: true,
                deleted_at: Some(now),
                modified_at: now,
                version: (old(self).version + 1) as i64,
                ..*old(self)
            }),
    {
        self.deleted = true;
        self.deleted_at = Some(now);
        self.touch_at(now);
    }

    /// Soft-deletes the note now.
    pub fn mark_deleted(&mut self)
        requires
            old(self).version < i64::MAX,
        ensures
            *final(self) == (Note {
                deleted: true,
                deleted_at: Some(final(self).modified_at),
                modified_at: final(self).modified_at,
                version: (old(self).version + 1) as i64,
                ..*old(self)
            }),
    {
        let now = now_millis();
        self.mark_deleted_at(now);
    }

    /// Restores a soft-deleted note at `now`.
    pub fn restore_at(&mut self, now: i64)
        requires
            old(self).version < i64::MAX,
        ensures
            *final(self) == (Note {
                deleted: false,
                deleted_at: None,
                modified_at: now,
                version: (old(self).version + 1) as i64,
                ..*old(self)
            }),
    {
        self.deleted = false;
        self.deleted_at = None;
        self.touch_at(now);
    }

    /// Restores a soft-deleted note now.
    pub fn restore(&mut self)
        requires
            old(self).version < i64::MAX,
        ensures
            *final(self) == (Note {
                deleted: false,
                deleted_at: None,
                modified_at: final(self).modified_at,
                version: (old(self).version + 1) as i64,
                ..*old(self)
            }),
    {
        let now = now_millis();
        self.restore_at(now);
    }

    /// Flips the pinned flag at `now`.
    pub fn toggle_pin_at(&mut self, now: i64)
        requires
            old(self).version < i64::MAX,
        ensures
            *final(self) == (Note {
                pinned: !old(self).pinned,
                modified_at: now,
                version: (old(self).version + 1) as i64,
                ..*old(self)
            }),
    {
        self.pinned = !self.pinned;
        self.touch_at(now);
    }

    /// Flips the pinned flag now.
    pub fn toggle_pin(&mut self)
        requires
            old(self).version < i64::MAX,
        ensures
            *final(self) == (Note {
                pinned: !old(self).pinned,
                modified_at: final(self).modified_at,
                version: (old(self).version + 1) as i64,
                ..*old(self)
            }),
    {
        let now = now_millis();
        self.toggle_pin_at(now);
    }
}

} // verus!
