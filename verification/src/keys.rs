//! Key roles of the message layer.
//!
//! Each participant holds three key pairs: an identity key used for
//! application-level authentication (for now it binds the public part to the
//! raw private bytes, a placeholder until a signature-capable key replaces
//! it), and two X25519 pairs — the view key, which lets a recipient derive
//! tag material and recognize its own traffic, and the spend key, which alone
//! permits decrypting a payload. All key material is held as 32-byte values;
//! the invariant of an X25519 pair is `public = x25519(secret, basepoint)`.

use vstd::prelude::*;

verus! {

use vstd::slice::slice_to_vec;
use crate::crypto::{basepoint, basepoint_bytes, random_bytes, x25519_fn, x25519_mul};
use crate::errors::CoreError;
use crate::util::{all_zero, is_all_zero};

/// An X25519 pair is well formed when the public part is the clamped
/// base-point multiple of the secret.
pub open spec fn keypair_wf(secret: Seq<u8>, public: Seq<u8>) -> bool {
    secret.len() == 32 && public.len() == 32 && public == x25519_fn(secret, basepoint())
}

/// Identity key pair; the public part currently equals the raw private bytes.
#[derive(Debug, Clone)]
pub struct IdentityKey {
    /// Public part (32 bytes).
    pub public: Vec<u8>,
    /// Private part (32 bytes).
    pub private: Vec<u8>,
}

/// View key pair (X25519): recognizes traffic, cannot decrypt payloads.
#[derive(Debug, Clone)]
pub struct ViewKey {
    pub secret: Vec<u8>,
    pub public: Vec<u8>,
}

/// Spend key pair (X25519): the only key that decrypts payloads.
#[derive(Debug, Clone)]
pub struct SpendKey {
    pub secret: Vec<u8>,
    pub public: Vec<u8>,
}

impl IdentityKey {
    /// Draws a fresh private value and binds the public part to it.
    pub fn generate() -> (r: Self)
        ensures
            r.private@.len() == 32,
            r.public@ == r.private@,
    {
        let private = random_bytes(32);
        let public = slice_to_vec(private.as_slice());
        Self { public, private }
    }
}

impl ViewKey {
    /// Draws a fresh X25519 pair from the secure random source.
    pub fn generate() -> (r: Self)
        ensures
            keypair_wf(r.secret@, r.public@),
    {
        let secret = random_bytes(32);
        let bp = basepoint_bytes();
        let public = x25519_mul(secret.as_slice(), bp.as_slice());
        Self { secret, public }
    }

    /// Shared secret with a peer's spend key, for key derivation. Fails
    /// closed when the exchange lands on the all-zero output, as it does for
    /// the known low-order points.
    pub fn ecdh(&self, remote: &SpendKey) -> (r: Result<Vec<u8>, CoreError>)
        requires
            self.secret@.len() == 32,
            remote.public@.len() == 32,
        ensures
            r matches Ok(s) ==> s@ == x25519_fn(self.secret@, remote.public@) && s@.len() == 32
                && !all_zero(s@),
            r matches Ok(s) ==> forall|s2: Seq<u8>|
                remote.public@ == x25519_fn(s2, basepoint()) ==> s@ == x25519_fn(
                    s2,
                    x25519_fn(self.secret@, basepoint()),
                ),
            r matches Err(e) ==> e == CoreError::CryptoFailure && all_zero(
                x25519_fn(self.secret@, remote.public@),
            ),
    {
        let shared = x25519_mul(self.secret.as_slice(), remote.public.as_slice());
        if is_all_zero(shared.as_slice()) {
            Err(CoreError::CryptoFailure)
        } else {
            Ok(shared)
        }
    }
}

impl SpendKey {
    /// Draws a fresh X25519 pair from the secure random source.
    pub fn generate() -> (r: Self)
        ensures
            keypair_wf(r.secret@, r.public@),
    {
        let secret = random_bytes(32);
        let bp = basepoint_bytes();
        let public = x25519_mul(secret.as_slice(), bp.as_slice());
        Self { secret, public }
    }

    /// Shared secret with a sender's ephemeral public key. Fails closed when
    /// the exchange lands on the all-zero output, as it does for the known
    /// low-order points.
    pub fn ecdh(&self, remote_epk: &[u8]) -> (r: Result<Vec<u8>, CoreError>)
        requires
            self.secret@.len() == 32,
            remote_epk@.len() == 32,
        ensures
            r matches Ok(s) ==> s@ == x25519_fn(self.secret@, remote_epk@) && s@.len() == 32
                && !all_zero(s@),
            r matches Ok(s) ==> forall|s2: Seq<u8>|
                remote_epk@ == x25519_fn(s2, basepoint()) ==> s@ == x25519_fn(
                    s2,
                    x25519_fn(self.secret@, basepoint()),
                ),
            r matches Err(e) ==> e == CoreError::CryptoFailure && all_zero(
                x25519_fn(self.secret@, remote_epk@),
            ),
    {
        let shared = x25519_mul(self.secret.as_slice(), remote_epk);
        if is_all_zero(shared.as_slice()) {
            Err(CoreError::CryptoFailure)
        } else {
            Ok(shared)
        }
    }
}

} // verus!
