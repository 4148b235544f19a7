//! Failure taxonomy of the message layer.
//!
//! Every operation on attacker-controlled bytes returns one of these values
//! instead of panicking; to an outside observer a failed decryption and a
//! message addressed to somebody else look the same.

use vstd::prelude::*;

verus! {

/// What can go wrong while building, parsing or opening an envelope.
#[derive(Debug, Clone, Copy, PartialEq, Eq, Structural)]
pub enum CoreError {
    /// Truncated or inconsistent binary structure on decode.
    Malformed,
    /// AEAD tag or stealth tag mismatch.
    AuthenticationFailed,
    /// Key or cipher construction failed, e.g. a degenerate shared secret.
    CryptoFailure,
    /// A proof-of-work nonce does not meet the required threshold.
    ProofOfWorkInvalid,
    /// A deadline was exceeded before the work finished.
    Timeout,
}

} // verus!
