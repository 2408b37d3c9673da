//! Encrypted attachment storage: the file name and the data are encrypted
//! under the master key; MIME type and size stay in the clear.
use vstd::prelude::*;
use vstd::utf8::*;

use crate::crypto::{AES_GCM_MAX_PLAINTEXT, CryptoService, EncryptedData, opened_bytes, opened_text, seals};
use crate::error::Error;
use crate::vault::Vault;

verus! {

/// A stored attachment.
#[derive(Debug, Clone)]
pub struct StoredAttachment {
    pub id: String,
    pub filename: EncryptedData,
    pub mime_type: String,
    pub size: i64,
    pub data: EncryptedData,
}

/// A decrypted attachment: file name, MIME type, size and data.
pub struct AttachmentContent {
    pub filename: String,
    pub mime_type: String,
    pub size: i64,
    pub data: Vec<u8>,
}

pub open spec fn has_attachment(rows: Seq<StoredAttachment>, id: Seq<char>) -> bool {
    exists|i: int| 0 <= i < rows.len() && (#[trigger] rows[i]).id@ == id
}

pub open spec fn attachment_index(rows: Seq<StoredAttachment>, id: Seq<char>) -> int {
    choose|i: int| 0 <= i < rows.len() && (#[trigger] rows[i]).id@ == id
}

/// No two attachments share an id.
pub open spec fn unique_attachments(rows: Seq<StoredAttachment>) -> bool {
    forall|a: int, b: int| 0 <= a < b < rows.len() ==> (#[trigger] rows[a]).id@ != (#[trigger] rows[b]).id@
}

/// The sum of the recorded sizes.
pub open spec fn total_of(rows: Seq<StoredAttachment>) -> int
    decreases rows.len(),
{
    if rows.len() == 0 {
        0
    } else {
        total_of(rows.drop_last()) + rows.last().size
    }
}

impl Vault {
    fn find_attachment(&self, id: &String) -> (r: Option<usize>)
        requires
            unique_attachments(self.attachments@),
        ensures
            match r {
                Some(i) => i < self.attachments@.len() && self.attachments@[i as int].id@ == id@
                    && attachment_index(self.attachments@, id@) == i,
                None => !has_attachment(self.attachments@, id@),
            },
    {
        let mut i: usize = 0;
        while i < self.attachments.len()
            invariant
                unique_attachments(self.attachments@),
                i <= self.attachments@.len(),
                forall|j: int| 0 <= j < i ==> (#[trigger] self.attachments@[j]).id@ != id@,
            decreases self.attachments@.len() - i,
        {
            if self.attachments[i].id == *id {
                proof {
                    let rows = self.attachments@;
                    let k = attachment_index(rows, id@);
                    if k < i {
                        assert(rows[k].id@ != rows[i as int].id@);
                    } else if k > i {
                        assert(rows[i as int].id@ != rows[k].id@);
                    }
                }
                return Some(i);
            }
            i = i + 1;
        }
        None
    }

    /// Stores an attachment under `id`, replacing any with that id.
    pub fn store_attachment(
        &mut self,
        id: &String,
        filename: &str,
        mime_type: &str,
        size: i64,
        data: &[u8],
    ) -> (r: Result<(), Error>)
        requires
            unique_attachments(old(self).attachments@),
        ensures
            unique_attachments(final(self).attachments@),
            final(self).store == old(self).store,
            final(self).sync == old(self).sync,
            r is Err ==> *final(self) == *old(self),
            old(self).store.key is None ==> r == Err::<(), Error>(Error::KeyRequired),
            r is Ok <==> old(self).store.key is Some && encode_utf8(filename@).len() <= AES_GCM_MAX_PLAINTEXT
                && data@.len() <= AES_GCM_MAX_PLAINTEXT,
            r is Err && old(self).store.key is Some ==> r->Err_0 == Error::EncryptionFailed,
            r is Ok ==> {
                let rows = final(self).attachments@;
                let a = rows[attachment_index(rows, id@)];
                let key = old(self).store.key->0@;
                &&& old(self).store.key is Some
                &&& has_attachment(rows, id@)
                &&& seals(key, encode_utf8(filename@), a.filename)
                &&& seals(key, data@, a.data)
                &&& a.mime_type@ == mime_type@
                &&& a.size == size
                &&& forall|other: Seq<char>| other != id@ ==> (#[trigger] has_attachment(rows, other)
                    <==> has_attachment(old(self).attachments@, other))
            },
    {
        let key = match &self.store.key {
            Some(k) => *k,
            None => return Err(Error::KeyRequired),
        };
        let crypto = CryptoService::new();
        let name = match crypto.encrypt_text(filename, &key) {
            Ok(e) => e,
            Err(e) => return Err(e),
        };
        let sealed = match crypto.encrypt_binary(data, &key) {
            Ok(e) => e,
            Err(e) => return Err(e),
        };
        let row = StoredAttachment {
            id: id.clone(),
            filename: name,
            mime_type: mime_type.to_string(),
            size,
            data: sealed,
        };
        let ghost old_rows = self.attachments@;
        match self.find_attachment(id) {
            Some(i) => {
                self.attachments.set(i, row);
                proof {
                    let rows = self.attachments@;
                    assert forall|a: int, b: int| 0 <= a < b < rows.len() implies (#[trigger] rows[a]).id@
                        != (#[trigger] rows[b]).id@ by {
                        assert(old_rows[a].id@ != old_rows[b].id@);
                    }
                    assert(rows[i as int].id@ == id@);
                    assert(has_attachment(rows, id@));
                    let k = attachment_index(rows, id@);
                    if k < i {
                        assert(rows[k].id@ != rows[i as int].id@);
                    } else if k > i {
                        assert(rows[i as int].id@ != rows[k].id@);
                    }
                    assert forall|other: Seq<char>| other != id@ implies (#[trigger] has_attachment(rows, other)
                        <==> has_attachment(old_rows, other)) by {
                        if has_attachment(rows, other) {
                            let w = choose|w: int| 0 <= w < rows.len() && (#[trigger] rows[w]).id@ == other;
                            assert(old_rows[w] == rows[w]);
                        }
                        if has_attachment(old_rows, other) {
                            let w = choose|w: int| 0 <= w < old_rows.len() && (#[trigger] old_rows[w]).id@ == other;
                            assert(old_rows[w] == rows[w]);
                        }
                    }
                }
            },
            None => {
                self.attachments.push(row);
                proof {
                    let rows = self.attachments@;
                    let n = rows.len() - 1;
                    assert forall|a: int, b: int| 0 <= a < b < rows.len() implies (#[trigger] rows[a]).id@
                        != (#[trigger] rows[b]).id@ by {
                        if b == n {
                            assert(rows[a] == old_rows[a]);
                        }
                    }
                    assert(rows[n].id@ == id@);
                    assert(has_attachment(rows, id@));
                    let k = attachment_index(rows, id@);
                    if k < n {
                        assert(rows[k] == old_rows[k]);
                    }
                    assert forall|other: Seq<char>| other != id@ implies (#[trigger] has_attachment(rows, other)
                        <==> has_attachment(old_rows, other)) by {
                        if has_attachment(rows, other) {
                            let w = choose|w: int| 0 <= w < rows.len() && (#[trigger] rows[w]).id@ == other;
                            assert(w < n);
                            assert(old_rows[w] == rows[w]);
                        }
                        if has_attachment(old_rows, other) {
                            let w = choose|w: int| 0 <= w < old_rows.len() && (#[trigger] old_rows[w]).id@ == other;
                            assert(old_rows[w] == rows[w]);
                        }
                    }
                }
            },
        }
        Ok(())
    }

    /// The decrypted attachment with id `id`.
    pub fn get_attachment(&self, id: &String) -> (r: Result<AttachmentContent, Error>)
        requires
            unique_attachments(self.attachments@),
        ensures
            match r {
                Ok(c) => {
                    let a = self.attachments@[attachment_index(self.attachments@, id@)];
                    let key = self.store.key->0@;
                    &&& self.store.key is Some
                    &&& has_attachment(self.attachments@, id@)
                    &&& opened_text(key, a.filename) == Some(c.filename@)
                    &&& opened_bytes(key, a.data) == Some(c.data@)
                    &&& c.mime_type@ == a.mime_type@
                    &&& c.size == a.size
                },
                Err(e) => if self.store.key is None {
                    e == Error::KeyRequired
                } else if !has_attachment(self.attachments@, id@) {
                    e == Error::NotFound
                } else {
                    let a = self.attachments@[attachment_index(self.attachments@, id@)];
                    &&& e == Error::AuthenticationFailed
                    &&& opened_text(self.store.key->0@, a.filename) is None || opened_bytes(self.store.key->0@, a.data) is None
                },
            },
    {
        let key = match &self.store.key {
            Some(k) => k,
            None => return Err(Error::KeyRequired),
        };
        let i = match self.find_attachment(id) {
            Some(i) => i,
            None => return Err(Error::NotFound),
        };
        let a = &self.attachments[i];
        let crypto = CryptoService::new();
        let filename = match crypto.decrypt_text(&a.filename, key) {
            Ok(f) => f,
            Err(e) => return Err(e),
        };
        let data = match crypto.decrypt_binary(&a.data, key) {
            Ok(d) => d,
            Err(e) => return Err(e),
        };
        Ok(AttachmentContent { filename, mime_type: a.mime_type.clone(), size: a.size, data })
    }

    /// Removes the attachment with id `id`, if any.
    pub fn delete_attachment(&mut self, id: &String) -> (r: Result<(), Error>)
        requires
            unique_attachments(old(self).attachments@),
        ensures
            unique_attachments(final(self).attachments@),
            final(self).store == old(self).store,
            r is Err <==> old(self).store.key is None,
            r is Err ==> r->Err_0 == Error::KeyRequired && *final(self) == *old(self),
            r is Ok ==> !has_attachment(final(self).attachments@, id@),
            r is Ok ==> forall|other: Seq<char>| other != id@ ==> (#[trigger] has_attachment(final(self).attachments@, other)
                <==> has_attachment(old(self).attachments@, other)),
    {
        if self.store.key.is_none() {
            return Err(Error::KeyRequired);
        }
        match self.find_attachment(id) {
            None => {},
            Some(i) => {
                let ghost old_rows = self.attachments@;
                let _gone = self.attachments.remove(i);
                proof {
                    let rows = self.attachments@;
                    assert forall|a: int, b: int| 0 <= a < b < rows.len() implies (#[trigger] rows[a]).id@
                        != (#[trigger] rows[b]).id@ by {
                        let ka = if a < i { a } else { a + 1 };
                        let kb = if b < i { b } else { b + 1 };
                        assert(rows[a] == old_rows[ka] && rows[b] == old_rows[kb]);
                    }
                    if has_attachment(rows, id@) {
                        let w = choose|w: int| 0 <= w < rows.len() && (#[trigger] rows[w]).id@ == id@;
                        let kw = if w < i { w } else { w + 1 };
                        assert(rows[w] == old_rows[kw]);
                        if kw < i {
                            assert(old_rows[kw].id@ != old_rows[i as int].id@);
                        } else {
                            assert(old_rows[i as int].id@ != old_rows[kw].id@);
                        }
                    }
                    assert forall|other: Seq<char>| other != id@ implies (#[trigger] has_attachment(rows, other)
                        <==> has_attachment(old_rows, other)) by {
                        if has_attachment(rows, other) {
                            let w = choose|w: int| 0 <= w < rows.len() && (#[trigger] rows[w]).id@ == other;
                            let kw = if w < i { w } else { w + 1 };
                            assert(rows[w] == old_rows[kw]);
                        }
                        if has_attachment(old_rows, other) {
                            let w = choose|w: int| 0 <= w < old_rows.len() && (#[trigger] old_rows[w]).id@ == other;
                            assert(w != i);
                            let kw = if w < i { w } else { w - 1 };
                            assert(rows[kw] == old_rows[w]);
                        }
                    }
                }
            },
        }
        Ok(())
    }

    /// The recorded size of the attachment with id `id`, if stored.
    pub fn attachment_size(&self, id: &String) -> (r: Option<i64>)
        requires
            unique_attachments(self.attachments@),
        ensures
            match r {
                Some(s) => has_attachment(self.attachments@, id@)
                    && s == self.attachments@[attachment_index(self.attachments@, id@)].size,
                None => !has_attachment(self.attachments@, id@),
            },
    {
        match self.find_attachment(id) {
            Some(i) => Some(self.attachments[i].size),
            None => None,
        }
    }

    /// The number of stored attachments.
    pub fn attachment_count(&self) -> (r: u64)
        ensures
            r == self.attachments@.len(),
    {
        self.attachments.len() as u64
    }

    /// The sum of the recorded sizes of all attachments.
    pub fn attachments_total_size(&self) -> (r: i128)
        requires
            self.attachments@.len() <= u32::MAX,
        ensures
            r == total_of(self.attachments@),
    {
        let mut total: i128 = 0;
        let mut i: usize = 0;
        while i < self.attachments.len()
            invariant
                i <= self.attachments@.len(),
                self.attachments@.len() <= u32::MAX,
                total == total_of(self.attachments@.take(i as int)),
                -(i as int) * 0x8000_0000_0000_0000 <= total <= (i as int) * 0x8000_0000_0000_0000,
            decreases self.attachments@.len() - i,
        {
            proof {
                let rows = self.attachments@;
                assert(rows.take(i + 1).drop_last() == rows.take(i as int));
                assert((i as int) * 0x8000_0000_0000_0000 <= 0xffff_ffff * 0x8000_0000_0000_0000) by (nonlinear_arith)
                    requires i <= 0xffff_ffff;
            }
            total = total + self.attachments[i].size as i128;
            proof {
                assert((i as int + 1) * 0x8000_0000_0000_0000 == (i as int) * 0x8000_0000_0000_0000 + 0x8000_0000_0000_0000) by (nonlinear_arith);
            }
            i = i + 1;
        }
        proof {
            assert(self.attachments@.take(self.attachments@.len() as int) == self.attachments@);
        }
        total
    }
}

} // verus!
