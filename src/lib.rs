//! End-to-end encrypted note store with multi-device synchronisation.
//!
//! The library holds the verified core: the crypto envelope, the key
//! manager, the note and settings models, the encrypted local store, the
//! client side of the sync protocol and the relay's write-acceptance and
//! change-log rules.
#![allow(unused_imports)]

pub mod attachments;
pub mod codec;
pub mod config;
pub mod error;
pub mod crypto;
pub mod key_manager;
pub mod note;
pub mod protocol;
pub mod relay;
pub mod settings;
pub mod store;
pub mod sync_engine;
pub mod sync_meta;
pub mod system;
pub mod vault;
