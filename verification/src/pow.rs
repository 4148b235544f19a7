//! Hashcash-style proof-of-work gate: a sender must find a nonce whose
//! SHA-256 digest over the header bytes has a configurable number of leading
//! zero bits; checking a nonce costs one hash.

use vstd::prelude::*;

verus! {

use vstd::bytes::spec_u64_to_le_bytes;
use vstd::bytes::u64_to_le_bytes;
use crate::util::{sha256, sha256_of, leading_zero_bits, spec_leading_zero_bits};

/// The bytes the proof-of-work digest is taken over: the header data with the
/// candidate nonce appended in 8-byte little-endian form.
pub open spec fn pow_message(data: Seq<u8>, nonce: u64) -> Seq<u8> {
    data + spec_u64_to_le_bytes(nonce)
}

/// Whether a nonce meets the threshold for the given header data: the SHA-256
/// digest of the message must start with at least `bits` zero bits.
pub open spec fn pow_ok(bits: u32, data: Seq<u8>, nonce: u64) -> bool {
    spec_leading_zero_bits(sha256_of(pow_message(data, nonce))) >= bits
}

/// Computes and verifies hashcash proofs at a fixed difficulty.
pub struct Hashcash {
    /// Number of leading zero bits the digest must reach.
    pub target_zero_bits: u32,
}

impl Hashcash {
    /// A gate at the given difficulty.
    pub fn new(target_zero_bits: u32) -> (r: Self)
        ensures
            r.target_zero_bits == target_zero_bits,
    {
        Self { target_zero_bits }
    }

    /// Hashes the header data with the nonce appended.
    fn digest_with_nonce(data: &[u8], nonce: u64) -> (h: Vec<u8>)
        requires
            data@.len() + 8 <= usize::MAX,
        ensures
            h@ == sha256_of(pow_message(data@, nonce)),
            h@.len() == 32,
    {
        let mut buf: Vec<u8> = Vec::new();
        buf.extend_from_slice(data);
        let nb = u64_to_le_bytes(nonce);
        buf.extend_from_slice(nb.as_slice());
        proof {
            assert(buf@ =~= pow_message(data@, nonce));
        }
        sha256(buf.as_slice())
    }

    /// Searches nonces from zero upward until the digest threshold is met.
    /// The expected cost is about two to the power of the difficulty; callers
    /// that need a deadline use [`Self::compute_nonce_bounded`]. Should every
    /// 64-bit nonce fail the threshold, the search returns zero.
    pub fn compute_nonce(&self, data: &[u8]) -> (nonce: u64)
        requires
            data@.len() + 8 <= usize::MAX,
        ensures
            pow_ok(self.target_zero_bits, data@, nonce) || (forall|k: u64|
                !pow_ok(self.target_zero_bits, data@, k)),
            forall|k: u64| k < nonce ==> !pow_ok(self.target_zero_bits, data@, k),
    {
        let mut nonce: u64 = 0;
        loop
            invariant
                data@.len() + 8 <= usize::MAX,
                forall|k: u64| k < nonce ==> !pow_ok(self.target_zero_bits, data@, k),
            decreases u64::MAX - nonce,
        {
            let h = Self::digest_with_nonce(data, nonce);
            if leading_zero_bits(h.as_slice()) >= self.target_zero_bits {
                return nonce;
            }
            if nonce == u64::MAX {
                return 0;
            }
            nonce = nonce + 1;
        }
    }

    /// Like [`Self::compute_nonce`], but gives up after `max_attempts`
    /// candidate nonces, so the caller can bound the work.
    pub fn compute_nonce_bounded(&self, data: &[u8], max_attempts: u64) -> (r: Option<u64>)
        requires
            data@.len() + 8 <= usize::MAX,
        ensures
            r matches Some(nonce) ==> pow_ok(self.target_zero_bits, data@, nonce) && (forall|k: u64|
                k < nonce ==> !pow_ok(self.target_zero_bits, data@, k)),
            r is None ==> forall|k: u64| k < max_attempts ==> !pow_ok(self.target_zero_bits, data@, k),
    {
        let mut nonce: u64 = 0;
        while nonce < max_attempts
            invariant
                data@.len() + 8 <= usize::MAX,
                nonce <= max_attempts,
                forall|k: u64| k < nonce ==> !pow_ok(self.target_zero_bits, data@, k),
            decreases max_attempts - nonce,
        {
            let h = Self::digest_with_nonce(data, nonce);
            if leading_zero_bits(h.as_slice()) >= self.target_zero_bits {
                return Some(nonce);
            }
            nonce = nonce + 1;
        }
        None
    }

    /// Checks a nonce against the threshold; one hash, O(1).
    pub fn verify(&self, data: &[u8], nonce: u64) -> (ok: bool)
        requires
            data@.len() + 8 <= usize::MAX,
        ensures
            ok == pow_ok(self.target_zero_bits, data@, nonce),
    {
        let h = Self::digest_with_nonce(data, nonce);
        leading_zero_bits(h.as_slice()) >= self.target_zero_bits
    }
}

} // verus!
