//! The crypto envelope: password-based key derivation, authenticated
//! encryption of text and binary data, and content hashing.
use vstd::prelude::*;
use vstd::utf8::*;
use aes_gcm::aead::{Aead, AeadCore, KeyInit, OsRng};
use aes_gcm::aead::rand_core::RngCore;
use sha2::Digest;

use crate::codec::{
    base64_bytes, base64_decode, base64_encode, base64_text, json_field, json_quote, json_string_literal,
    json_text_field, utf8_decode,
};
use crate::error::Error;

verus! {

broadcast use {encode_utf8_valid_utf8, encode_utf8_decode_utf8};

/// Length of a master key in bytes (AES-256).
pub const KEY_LENGTH: usize = 32;
/// Length of an AES-GCM nonce in bytes.
pub const NONCE_LENGTH: usize = 12;
/// Minimum salt length accepted by key derivation.
pub const SALT_LENGTH: usize = 32;
/// The iteration floor: lower counts are replaced by it.
pub const DEFAULT_ITERATIONS: u32 = 100_000;
/// The largest plaintext, in bytes, that one AES-GCM message may hold.
pub const AES_GCM_MAX_PLAINTEXT: u64 = 0x10_0000_0000;

/// PBKDF2 with HMAC-SHA-256, producing a 32-byte key.
pub uninterp spec fn pbkdf2_sha256(password: Seq<u8>, salt: Seq<u8>, rounds: u32) -> Seq<u8>;

/// AES-256-GCM sealing without associated data: ciphertext followed by tag.
pub uninterp spec fn aes_gcm_seal(key: Seq<u8>, nonce: Seq<u8>, msg: Seq<u8>) -> Seq<u8>;

/// AES-256-GCM opening without associated data; `None` on a tag mismatch.
pub uninterp spec fn aes_gcm_open(key: Seq<u8>, nonce: Seq<u8>, sealed: Seq<u8>) -> Option<Seq<u8>>;

/// The SHA-256 digest of a byte string.
pub uninterp spec fn sha256_digest(data: Seq<u8>) -> Seq<u8>;

/// Relies on pbkdf2's `pbkdf2_hmac::<Sha256>` filling a 32-byte buffer.
#[verifier::external_body]
fn pbkdf2_hmac_sha256(password: &[u8], salt: &[u8], rounds: u32) -> (r: [u8; 32])
    ensures
        r@ == pbkdf2_sha256(password@, salt@, rounds),
{
    let mut key = [0u8; 32];
    pbkdf2::pbkdf2_hmac::<sha2::Sha256>(password, salt, rounds, &mut key);
    key
}

/// Relies on aes-gcm's `Aes256Gcm::encrypt`, which fails only on a message
/// longer than `P_MAX` (2^36 bytes), appends the 16-byte tag to the
/// ciphertext, and whose output `Aes256Gcm::decrypt` opens again under the
/// same key and nonce.
#[verifier::external_body]
fn aes_gcm_encrypt(key: &[u8; 32], nonce: &[u8], msg: &[u8]) -> (r: Option<Vec<u8>>)
    requires
        nonce@.len() == NONCE_LENGTH,
    ensures
        r is Some <==> msg@.len() <= AES_GCM_MAX_PLAINTEXT,
        r is Some ==> r->0@ == aes_gcm_seal(key@, nonce@, msg@),
        r is Some ==> r->0@.len() == msg@.len() + 16,
        r is Some ==> aes_gcm_open(key@, nonce@, r->0@) == Some(msg@),
{
    let cipher = aes_gcm::Aes256Gcm::new(key.into());
    cipher.encrypt(aes_gcm::Nonce::from_slice(nonce), msg).ok()
}

/// Relies on aes-gcm's `Aes256Gcm::decrypt`: the plaintext, or `None` when
/// the tag does not verify.
#[verifier::external_body]
fn aes_gcm_decrypt(key: &[u8; 32], nonce: &[u8], sealed: &[u8]) -> (r: Option<Vec<u8>>)
    requires
        nonce@.len() == NONCE_LENGTH,
    ensures
        match r {
            Some(m) => aes_gcm_open(key@, nonce@, sealed@) == Some(m@),
            None => aes_gcm_open(key@, nonce@, sealed@) is None,
        },
{
    let cipher = aes_gcm::Aes256Gcm::new(key.into());
    cipher.decrypt(aes_gcm::Nonce::from_slice(nonce), sealed).ok()
}

/// Relies on aes-gcm's `Aes256Gcm::generate_nonce` with the OS random
/// source: 12 bytes, of which nothing else is known.
#[verifier::external_body]
fn fresh_nonce() -> (r: Vec<u8>)
    ensures
        r@.len() == NONCE_LENGTH,
{
    aes_gcm::Aes256Gcm::generate_nonce(&mut OsRng).to_vec()
}

/// Relies on `OsRng::fill_bytes` (rand_core, through aes-gcm): `n` bytes
/// from the operating system's random source.
#[verifier::external_body]
pub(crate) fn random_bytes(n: usize) -> (r: Vec<u8>)
    ensures
        r@.len() == n,
{
    let mut bytes = vec![0u8; n];
    OsRng.fill_bytes(&mut bytes);
    bytes
}

/// Relies on sha2's `Sha256::digest`.
#[verifier::external_body]
pub(crate) fn sha256(data: &[u8]) -> (r: [u8; 32])
    ensures
        r@ == sha256_digest(data@),
{
    sha2::Sha256::digest(data).into()
}

/// The iteration count actually used: counts below the floor are raised to it.
pub open spec fn effective_iterations(iterations: u32) -> u32 {
    if iterations < DEFAULT_ITERATIONS { DEFAULT_ITERATIONS } else { iterations }
}

/// The key derived from a password and salt.
pub open spec fn derived_key(password: Seq<char>, salt: Seq<u8>, iterations: u32) -> Seq<u8> {
    pbkdf2_sha256(encode_utf8(password), salt, effective_iterations(iterations))
}

/// An AES-GCM envelope: base64 ciphertext, base64 nonce and, optionally, a
/// base64 tag kept apart from the ciphertext (empty when the tag is
/// appended to the ciphertext).
#[derive(Debug, Clone)]
pub struct EncryptedData {
    pub ciphertext: String,
    pub nonce: String,
    pub tag: String,
}

/// The sealed bytes (ciphertext followed by tag) that the base64 parts of
/// an envelope hold.
pub open spec fn sealed_parts(ciphertext: Seq<char>, tag: Seq<char>) -> Option<Seq<u8>> {
    match base64_bytes(ciphertext) {
        None => None,
        Some(c) => if tag.len() == 0 {
            Some(c)
        } else {
            match base64_bytes(tag) {
                Some(t) => Some(c + t),
                None => None,
            }
        },
    }
}

/// The plaintext bytes the base64 parts of an envelope open to under `key`.
pub open spec fn opened_parts(key: Seq<u8>, ciphertext: Seq<char>, nonce: Seq<char>, tag: Seq<char>) -> Option<Seq<u8>> {
    match (sealed_parts(ciphertext, tag), base64_bytes(nonce)) {
        (Some(c), Some(n)) => if n.len() == NONCE_LENGTH {
            aes_gcm_open(key, n, c)
        } else {
            None
        },
        _ => None,
    }
}

/// The text that UTF-8 bytes decode to, if they are valid.
pub open spec fn utf8_text(b: Option<Seq<u8>>) -> Option<Seq<char>> {
    match b {
        Some(b) => if valid_utf8(b) { Some(decode_utf8(b)) } else { None },
        None => None,
    }
}

/// The sealed bytes (ciphertext followed by tag) that an envelope holds.
pub open spec fn sealed_bytes(e: EncryptedData) -> Option<Seq<u8>> {
    sealed_parts(e.ciphertext@, e.tag@)
}

/// The plaintext bytes an envelope opens to under `key`, if any.
pub open spec fn opened_bytes(key: Seq<u8>, e: EncryptedData) -> Option<Seq<u8>> {
    opened_parts(key, e.ciphertext@, e.nonce@, e.tag@)
}

/// The text an envelope opens to under `key`, if any.
pub open spec fn opened_text(key: Seq<u8>, e: EncryptedData) -> Option<Seq<char>> {
    utf8_text(opened_bytes(key, e))
}

/// The JSON form of an envelope; the tag member is left out when empty.
pub open spec fn envelope_json(e: EncryptedData) -> Seq<char> {
    "{\"ciphertext\":"@ + json_string_literal(e.ciphertext@) + ",\"nonce\":"@ + json_string_literal(e.nonce@)
        + if e.tag@.len() == 0 { Seq::empty() } else { ",\"tag\":"@ + json_string_literal(e.tag@) }
        + "}"@
}

/// The nonce member of an envelope's JSON; `iv` is accepted in its place.
pub open spec fn json_nonce(doc: Seq<char>) -> Option<Seq<char>> {
    match json_text_field(doc, "nonce"@) {
        Some(n) => Some(n),
        None => json_text_field(doc, "iv"@),
    }
}

/// The tag member of an envelope's JSON, empty when absent.
pub open spec fn json_tag(doc: Seq<char>) -> Seq<char> {
    match json_text_field(doc, "tag"@) {
        Some(t) => t,
        None => Seq::empty(),
    }
}

/// The text that the envelope serialized in `doc` opens to under `key`.
pub open spec fn opened_json_text(key: Seq<u8>, doc: Seq<char>) -> Option<Seq<char>> {
    match (json_text_field(doc, "ciphertext"@), json_nonce(doc)) {
        (Some(c), Some(n)) => utf8_text(opened_parts(key, c, n, json_tag(doc))),
        _ => None,
    }
}

/// Whether `e` is an envelope of `msg` under `key`, sealed with some
/// 12-byte nonce and the tag appended to the ciphertext.
pub open spec fn seals(key: Seq<u8>, msg: Seq<u8>, e: EncryptedData) -> bool {
    exists|n: Seq<u8>|
        n.len() == NONCE_LENGTH && #[trigger] base64_text(n) == e.nonce@
            && e.ciphertext@ == base64_text(aes_gcm_seal(key, n, msg))
            && base64_bytes(e.nonce@) == Some(n)
            && base64_bytes(e.ciphertext@) == Some(aes_gcm_seal(key, n, msg))
            && aes_gcm_open(key, n, aes_gcm_seal(key, n, msg)) == Some(msg)
            && e.tag@.len() == 0
}

/// Decrypting what was encrypted under the same key gives back the bytes.
pub proof fn lemma_decrypt_encrypted_bytes(key: Seq<u8>, msg: Seq<u8>, e: EncryptedData)
    requires
        seals(key, msg, e),
    ensures
        opened_bytes(key, e) == Some(msg),
{
    let n = choose|n: Seq<u8>|
        n.len() == NONCE_LENGTH && #[trigger] base64_text(n) == e.nonce@
            && e.ciphertext@ == base64_text(aes_gcm_seal(key, n, msg))
            && base64_bytes(e.nonce@) == Some(n)
            && base64_bytes(e.ciphertext@) == Some(aes_gcm_seal(key, n, msg))
            && aes_gcm_open(key, n, aes_gcm_seal(key, n, msg)) == Some(msg)
            && e.tag@.len() == 0;
    assert(sealed_bytes(e) == Some(aes_gcm_seal(key, n, msg)));
}

/// Decrypting a text that was encrypted under the same key gives back the
/// text.
pub proof fn lemma_decrypt_encrypted_text(key: Seq<u8>, plaintext: Seq<char>, e: EncryptedData)
    requires
        seals(key, encode_utf8(plaintext), e),
    ensures
        opened_text(key, e) == Some(plaintext),
{
    lemma_decrypt_encrypted_bytes(key, encode_utf8(plaintext), e);
}

/// Key derivation is a function of password, salt and iteration count, and
/// every count under the floor derives the key of the floor itself.
pub proof fn lemma_derive_key_deterministic(
    password: Seq<char>,
    salt: Seq<u8>,
    iterations: u32,
    other_iterations: u32,
)
    requires
        effective_iterations(iterations) == effective_iterations(other_iterations),
    ensures
        derived_key(password, salt, iterations) == derived_key(password, salt, other_iterations),
        iterations < DEFAULT_ITERATIONS ==> derived_key(password, salt, iterations)
            == derived_key(password, salt, DEFAULT_ITERATIONS),
{
}

/// Whether `e` is well formed: non-empty base64 ciphertext and nonce, and a
/// tag that is empty or base64.
pub open spec fn well_formed_envelope(e: EncryptedData) -> bool {
    e.ciphertext@.len() > 0 && e.nonce@.len() > 0
        && base64_bytes(e.ciphertext@) is Some && base64_bytes(e.nonce@) is Some
        && (e.tag@.len() == 0 || base64_bytes(e.tag@) is Some)
}

impl EncryptedData {
    /// An envelope from its three base64 parts.
    pub fn new(ciphertext: String, nonce: String, tag: String) -> (r: Self)
        ensures
            r.ciphertext == ciphertext,
            r.nonce == nonce,
            r.tag == tag,
    {
        EncryptedData { ciphertext, nonce, tag }
    }

    /// The JSON form of the envelope.
    pub fn to_json(&self) -> (r: String)
        ensures
            r@ == envelope_json(*self),
    {
        let mut out = "{\"ciphertext\":".to_string();
        out.append(json_quote(self.ciphertext.as_str()).as_str());
        out.append(",\"nonce\":");
        out.append(json_quote(self.nonce.as_str()).as_str());
        if !self.tag.as_str().is_empty() {
            out.append(",\"tag\":");
            out.append(json_quote(self.tag.as_str()).as_str());
        }
        out.append("}");
        out
    }

    /// Reads an envelope from its JSON form: `ciphertext` and `nonce` (or
    /// `iv`) must be strings; `tag` is optional.
    pub fn from_json(doc: &str) -> (r: Option<EncryptedData>)
        ensures
            r is Some <==> json_text_field(doc@, "ciphertext"@) is Some && json_nonce(doc@) is Some,
            r is Some ==> {
                &&& Some(r->0.ciphertext@) == json_text_field(doc@, "ciphertext"@)
                &&& Some(r->0.nonce@) == json_nonce(doc@)
                &&& r->0.tag@ == json_tag(doc@)
            },
    {
        let ciphertext = json_field(doc, "ciphertext")?;
        let nonce = match json_field(doc, "nonce") {
            Some(n) => n,
            None => json_field(doc, "iv")?,
        };
        let tag = match json_field(doc, "tag") {
            Some(t) => t,
            None => String::new(),
        };
        Some(EncryptedData { ciphertext, nonce, tag })
    }

    /// Checks the envelope's shape; the message names the first fault.
    pub fn validate(&self) -> (r: Result<(), String>)
        ensures
            r is Ok <==> well_formed_envelope(*self),
    {
        if self.ciphertext.as_str().is_empty() {
            return Err("Ciphertext cannot be empty".to_string());
        }
        if self.nonce.as_str().is_empty() {
            return Err("Nonce cannot be empty".to_string());
        }
        if base64_decode(self.ciphertext.as_str()).is_none() {
            return Err("Ciphertext must be valid base64".to_string());
        }
        if base64_decode(self.nonce.as_str()).is_none() {
            return Err("Nonce must be valid base64".to_string());
        }
        if !self.tag.as_str().is_empty() && base64_decode(self.tag.as_str()).is_none() {
            return Err("Tag must be valid base64".to_string());
        }
        Ok(())
    }
}

/// Stateless crypto operations.
pub struct CryptoService;

impl CryptoService {
    pub fn new() -> (r: Self) {
        CryptoService
    }

    /// Derives a 256-bit key from a password with PBKDF2-HMAC-SHA-256.
    /// Iteration counts under 100 000 are raised to 100 000.
    pub fn derive_key(&self, password: &str, salt: &[u8], iterations: u32) -> (r: Result<[u8; 32], Error>)
        ensures
            salt@.len() < SALT_LENGTH ==> r == Err::<[u8; 32], Error>(Error::InvalidSalt),
            salt@.len() >= SALT_LENGTH ==> r is Ok && r->Ok_0@ == derived_key(password@, salt@, iterations),
    {
        if salt.len() < SALT_LENGTH {
            return Err(Error::InvalidSalt);
        }
        let rounds = if iterations < DEFAULT_ITERATIONS { DEFAULT_ITERATIONS } else { iterations };
        Ok(pbkdf2_hmac_sha256(password.as_bytes(), salt, rounds))
    }

    /// Encrypts bytes under a fresh random nonce; the tag is appended to
    /// the ciphertext.
    pub fn encrypt_binary(&self, data: &[u8], key: &[u8; 32]) -> (r: Result<EncryptedData, Error>)
        ensures
            r is Ok <==> data@.len() <= AES_GCM_MAX_PLAINTEXT,
            r is Ok ==> seals(key@, data@, r->Ok_0),
            r is Ok ==> opened_bytes(key@, r->Ok_0) == Some(data@),
            r is Ok ==> base64_bytes(r->Ok_0.ciphertext@) is Some
                && base64_bytes(r->Ok_0.ciphertext@)->0.len() == data@.len() + 16,
            r is Err ==> r->Err_0 == Error::EncryptionFailed,
    {
        let nonce = fresh_nonce();
        match aes_gcm_encrypt(key, nonce.as_slice(), data) {
            None => Err(Error::EncryptionFailed),
            Some(sealed) => {
                let e = EncryptedData {
                    ciphertext: base64_encode(sealed.as_slice()),
                    nonce: base64_encode(nonce.as_slice()),
                    tag: String::new(),
                };
                assert(seals(key@, data@, e)) by {
                    assert(base64_text(nonce@) == e.nonce@);
                    assert(base64_bytes(e.ciphertext@) == Some(sealed@));
                }
                assert(sealed_bytes(e) == Some(sealed@));
                Ok(e)
            },
        }
    }

    /// Opens an envelope of bytes. Fails with `AuthenticationFailed`, and no
    /// other error, on malformed base64, a nonce of the wrong length, a
    /// wrong key or tampered data.
    pub fn decrypt_binary(&self, encrypted: &EncryptedData, key: &[u8; 32]) -> (r: Result<Vec<u8>, Error>)
        ensures
            match r {
                Ok(b) => opened_bytes(key@, *encrypted) == Some(b@),
                Err(e) => e == Error::AuthenticationFailed && opened_bytes(key@, *encrypted) is None,
            },
    {
        let ct = match base64_decode(encrypted.ciphertext.as_str()) {
            Some(c) => c,
            None => return Err(Error::AuthenticationFailed),
        };
        let mut sealed = ct;
        if !encrypted.tag.as_str().is_empty() {
            match base64_decode(encrypted.tag.as_str()) {
                Some(t) => {
                    let mut t = t;
                    sealed.append(&mut t);
                },
                None => return Err(Error::AuthenticationFailed),
            }
        }
        assert(sealed_bytes(*encrypted) == Some(sealed@));
        let nonce = match base64_decode(encrypted.nonce.as_str()) {
            Some(n) => n,
            None => return Err(Error::AuthenticationFailed),
        };
        if nonce.len() != NONCE_LENGTH {
            return Err(Error::AuthenticationFailed);
        }
        match aes_gcm_decrypt(key, nonce.as_slice(), sealed.as_slice()) {
            Some(m) => Ok(m),
            None => Err(Error::AuthenticationFailed),
        }
    }

    /// Encrypts the UTF-8 bytes of a text.
    pub fn encrypt_text(&self, plaintext: &str, key: &[u8; 32]) -> (r: Result<EncryptedData, Error>)
        ensures
            r is Ok <==> encode_utf8(plaintext@).len() <= AES_GCM_MAX_PLAINTEXT,
            r is Ok ==> seals(key@, encode_utf8(plaintext@), r->Ok_0),
            r is Ok ==> opened_text(key@, r->Ok_0) == Some(plaintext@),
            r is Ok ==> base64_bytes(r->Ok_0.ciphertext@) is Some
                && base64_bytes(r->Ok_0.ciphertext@)->0.len() == encode_utf8(plaintext@).len() + 16,
            r is Err ==> r->Err_0 == Error::EncryptionFailed,
    {
        self.encrypt_binary(plaintext.as_bytes(), key)
    }

    /// Opens an envelope of text; fails with `AuthenticationFailed` also when
    /// the plaintext is not valid UTF-8.
    pub fn decrypt_text(&self, encrypted: &EncryptedData, key: &[u8; 32]) -> (r: Result<String, Error>)
        ensures
            match r {
                Ok(s) => opened_text(key@, *encrypted) == Some(s@),
                Err(e) => e == Error::AuthenticationFailed && opened_text(key@, *encrypted) is None,
            },
    {
        let bytes = self.decrypt_binary(encrypted, key)?;
        match utf8_decode(bytes) {
            Some(s) => Ok(s),
            None => Err(Error::AuthenticationFailed),
        }
    }

    /// Opens the text envelope serialized as JSON in `doc`; a malformed
    /// document fails like a wrong key, with `AuthenticationFailed`.
    pub fn decrypt_json_text(&self, doc: &str, key: &[u8; 32]) -> (r: Result<String, Error>)
        ensures
            match r {
                Ok(s) => opened_json_text(key@, doc@) == Some(s@),
                Err(e) => e == Error::AuthenticationFailed && opened_json_text(key@, doc@) is None,
            },
    {
        match EncryptedData::from_json(doc) {
            Some(e) => self.decrypt_text(&e, key),
            None => Err(Error::AuthenticationFailed),
        }
    }

    /// A fresh random salt of 32 bytes.
    pub fn generate_salt(&self) -> (r: Vec<u8>)
        ensures
            r@.len() == SALT_LENGTH,
    {
        random_bytes(SALT_LENGTH)
    }

    /// The base64 text of the SHA-256 digest of a text's UTF-8 bytes.
    pub fn hash(&self, data: &str) -> (r: String)
        ensures
            r@ == base64_text(sha256_digest(encode_utf8(data@))),
            base64_bytes(r@) == Some(sha256_digest(encode_utf8(data@))),
            sha256_digest(encode_utf8(data@)).len() == 32,
    {
        let digest = sha256(data.as_bytes());
        base64_encode(&digest)
    }
}

} // verus!
