use vstd::prelude::*;

verus! {

/// The error kinds the library reports.
#[derive(Debug, Clone, Copy, PartialEq, Eq, Structural)]
pub enum Error {
    /// The salt given to key derivation is shorter than 32 bytes.
    InvalidSalt,
    /// Wrong key, tag mismatch, malformed base64 or a corrupted envelope.
    AuthenticationFailed,
    /// The plaintext is too long for a single AES-GCM message.
    EncryptionFailed,
    /// Malformed input or a value out of its allowed range.
    InvalidInput,
    /// No row with the given id.
    NotFound,
    /// A row with the given id already exists.
    AlreadyExists,
    /// The store is locked: no master key is held.
    KeyRequired,
    /// A missing, unknown or inactive bearer credential.
    Unauthorized,
}

} // verus!
