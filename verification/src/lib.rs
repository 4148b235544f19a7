//! Cryptographic message layer for a stealth-addressed messenger.
//!
//! The crate provides the key roles (identity, view, spend), the stealth
//! envelope format (ephemeral ECDH + HKDF + AEAD + recipient tag), the
//! hashcash proof-of-work gate, and the double-ratchet session that carries
//! forward secrecy across a conversation. Every executable function carries a
//! contract; calls into the underlying cryptographic crates go through small
//! trusted wrappers in `crypto` and `util`.

pub mod crypto;
pub mod envelope;
pub mod errors;
pub mod keys;
pub mod pow;
pub mod ratchet;
pub mod relay;
pub mod util;

pub use envelope::{Envelope, Payload};
pub use errors::CoreError;
pub use keys::{IdentityKey, SpendKey, ViewKey};
pub use pow::Hashcash;
pub use ratchet::{RatchetError, RatchetState};
pub use relay::{InMemoryRelay, NostrRelay};
