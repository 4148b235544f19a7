//! The stealth envelope and its plaintext payload: canonical little-endian
//! wire formats, and the construct / decrypt / recipient-check operations
//! built from ephemeral ECDH, HKDF, HMAC and an AEAD cipher.
//!
//! Parsing is strict: a buffer is accepted exactly when it is the
//! serialization of one record, so truncated or padded input is rejected and
//! nothing is ever read out of bounds.

use vstd::prelude::*;

verus! {

use vstd::bytes::{
    spec_u128_to_le_bytes,
    spec_u128_from_le_bytes,
    spec_u32_to_le_bytes,
    spec_u32_from_le_bytes,
    spec_u64_to_le_bytes,
    spec_u64_from_le_bytes,
    u128_to_le_bytes,
    u128_from_le_bytes,
    u32_to_le_bytes,
    u32_from_le_bytes,
    u64_to_le_bytes,
    u64_from_le_bytes,
    lemma_auto_spec_u128_to_from_le_bytes,
    lemma_auto_spec_u32_to_from_le_bytes,
    lemma_auto_spec_u64_to_from_le_bytes,
};
use vstd::slice::{slice_subrange, slice_to_vec};
use crate::crypto::{
    basepoint,
    basepoint_bytes,
    hkdf_okm,
    hkdf_sha256,
    hmac_sha256,
    hmac_sha256_of,
    now_millis,
    random_bytes,
    x25519_fn,
    x25519_mul,
    xchacha_decrypt,
    xchacha_encrypt,
    xchacha_seal,
};
use crate::errors::CoreError;
use crate::keys::SpendKey;
use crate::pow::{pow_ok, Hashcash};
use crate::util::{all_zero, constant_time_eq, is_all_zero};

/// Plaintext record carried inside an envelope.
#[derive(Debug, Clone)]
pub struct Payload {
    pub msg_id: u128,
    pub sender_fp: u32,
    pub ratchet_header: Vec<u8>,
    pub body: Vec<u8>,
}

/// Mathematical model of a payload.
#[verifier::ext_equal]
pub struct PayloadView {
    pub msg_id: u128,
    pub sender_fp: u32,
    pub ratchet_header: Seq<u8>,
    pub body: Seq<u8>,
}

impl View for Payload {
    type V = PayloadView;

    open spec fn view(&self) -> PayloadView {
        PayloadView {
            msg_id: self.msg_id,
            sender_fp: self.sender_fp,
            ratchet_header: self.ratchet_header@,
            body: self.body@,
        }
    }
}

impl PartialEq for Payload {
    fn eq(&self, other: &Payload) -> (r: bool) {
        let r = self.msg_id == other.msg_id && self.sender_fp == other.sender_fp
            && crate::util::constant_time_eq(
            self.ratchet_header.as_slice(),
            other.ratchet_header.as_slice(),
        ) && crate::util::constant_time_eq(self.body.as_slice(), other.body.as_slice());
        proof {
            if self.msg_id == other.msg_id && self.sender_fp == other.sender_fp
                && self.ratchet_header@ == other.ratchet_header@ && self.body@ == other.body@ {
                assert(self@ =~= other@);
            }
        }
        r
    }
}

impl vstd::std_specs::cmp::PartialEqSpecImpl for Payload {
    open spec fn obeys_eq_spec() -> bool {
        true
    }

    open spec fn eq_spec(&self, other: &Payload) -> bool {
        self@ == other@
    }
}

/// The variable-length fields must carry their length in a 32-bit prefix.
pub open spec fn payload_wf(p: PayloadView) -> bool {
    p.ratchet_header.len() <= u32::MAX && p.body.len() <= u32::MAX
}

/// Canonical payload serialization: `msg_id (16B LE) | sender_fp (4B LE) |
/// rh_len (4B LE) | ratchet_header | body_len (4B LE) | body`.
pub open spec fn payload_bytes(p: PayloadView) -> Seq<u8> {
    spec_u128_to_le_bytes(p.msg_id) + spec_u32_to_le_bytes(p.sender_fp) + spec_u32_to_le_bytes(
        p.ratchet_header.len() as u32,
    ) + p.ratchet_header + spec_u32_to_le_bytes(p.body.len() as u32) + p.body
}

/// Strict payload parse: `Some` exactly when the buffer is the serialization
/// of one payload.
pub open spec fn payload_parse(d: Seq<u8>) -> Option<PayloadView> {
    if d.len() < 24 {
        None
    } else {
        let rh_len = spec_u32_from_le_bytes(d.subrange(20, 24)) as int;
        if 24 + rh_len + 4 > d.len() {
            None
        } else {
            let body_len = spec_u32_from_le_bytes(d.subrange(24 + rh_len, 28 + rh_len)) as int;
            if 28 + rh_len + body_len != d.len() {
                None
            } else {
                Some(
                    PayloadView {
                        msg_id: spec_u128_from_le_bytes(d.subrange(0, 16)),
                        sender_fp: spec_u32_from_le_bytes(d.subrange(16, 20)),
                        ratchet_header: d.subrange(24, 24 + rh_len),
                        body: d.subrange(28 + rh_len, d.len() as int),
                    },
                )
            }
        }
    }
}

/// Serializing then parsing a well-formed payload gives it back.
pub proof fn lemma_payload_round_trip(p: PayloadView)
    requires
        payload_wf(p),
    ensures
        payload_parse(payload_bytes(p)) == Some(p),
{
    lemma_auto_spec_u128_to_from_le_bytes();
    lemma_auto_spec_u32_to_from_le_bytes();
    let d = payload_bytes(p);
    let rh = p.ratchet_header.len() as int;
    let bl = p.body.len() as int;
    assert(d.len() == 28 + rh + bl);
    assert(d.subrange(20, 24) =~= spec_u32_to_le_bytes(p.ratchet_header.len() as u32));
    assert(d.subrange(24 + rh, 28 + rh) =~= spec_u32_to_le_bytes(p.body.len() as u32));
    assert(d.subrange(0, 16) =~= spec_u128_to_le_bytes(p.msg_id));
    assert(d.subrange(16, 20) =~= spec_u32_to_le_bytes(p.sender_fp));
    assert(d.subrange(24, 24 + rh) =~= p.ratchet_header);
    assert(d.subrange(28 + rh, d.len() as int) =~= p.body);
    assert(payload_parse(d).unwrap() =~= p);
}

/// A strict parse pins the buffer down: whatever parses came from
/// serializing the result.
pub proof fn lemma_payload_parse_bytes(d: Seq<u8>)
    requires
        payload_parse(d) is Some,
    ensures
        payload_wf(payload_parse(d).unwrap()),
        payload_bytes(payload_parse(d).unwrap()) == d,
{
    lemma_auto_spec_u128_to_from_le_bytes();
    lemma_auto_spec_u32_to_from_le_bytes();
    let p = payload_parse(d).unwrap();
    let rh = p.ratchet_header.len() as int;
    assert(payload_bytes(p) =~= d);
}

impl Payload {
    /// Serializes the payload in the canonical layout.
    pub fn to_bytes(&self) -> (out: Vec<u8>)
        requires
            payload_wf(self@),
            28 + self.ratchet_header@.len() + self.body@.len() <= usize::MAX,
        ensures
            out@ == payload_bytes(self@),
    {
        let mut out: Vec<u8> = Vec::new();
        let b = u128_to_le_bytes(self.msg_id);
        out.extend_from_slice(b.as_slice());
        let b = u32_to_le_bytes(self.sender_fp);
        out.extend_from_slice(b.as_slice());
        let b = u32_to_le_bytes(self.ratchet_header.len() as u32);
        out.extend_from_slice(b.as_slice());
        out.extend_from_slice(self.ratchet_header.as_slice());
        let b = u32_to_le_bytes(self.body.len() as u32);
        out.extend_from_slice(b.as_slice());
        out.extend_from_slice(self.body.as_slice());
        proof {
            assert(out@ =~= payload_bytes(self@));
        }
        out
    }

    /// Parses a payload from the canonical layout; `None` on any truncated or
    /// inconsistent buffer.
    pub fn from_bytes(data: &[u8]) -> (r: Option<Payload>)
        ensures
            r matches Some(p) ==> payload_parse(data@) == Some(p@) && payload_wf(p@),
            r is None ==> payload_parse(data@) is None,
    {
        let n = data.len();
        if n < 24 {
            return None;
        }
        let msg_id = u128_from_le_bytes(slice_subrange(data, 0, 16));
        let sender_fp = u32_from_le_bytes(slice_subrange(data, 16, 20));
        let rh_len = u32_from_le_bytes(slice_subrange(data, 20, 24)) as usize;
        if rh_len > n - 24 {
            return None;
        }
        let cursor = 24 + rh_len;
        if n - cursor < 4 {
            return None;
        }
        let body_len = u32_from_le_bytes(slice_subrange(data, cursor, cursor + 4)) as usize;
        if body_len != n - (cursor + 4) {
            return None;
        }
        let ratchet_header = slice_to_vec(slice_subrange(data, 24, cursor));
        let body = slice_to_vec(slice_subrange(data, cursor + 4, n));
        let p = Payload { msg_id, sender_fp, ratchet_header, body };
        proof {
            assert(payload_parse(data@).unwrap() =~= p@);
        }
        Some(p)
    }
}

/// On-wire envelope: everything a relay sees.
#[derive(Debug, Clone)]
pub struct Envelope {
    pub ver: u8,
    pub ts: u64,
    pub ttl: u32,
    pub epk: Vec<u8>,
    pub tag: Vec<u8>,
    pub pow_nonce: u64,
    pub nonce: Vec<u8>,
    pub ciphertext: Vec<u8>,
    pub mac: Vec<u8>,
}

/// Mathematical model of an envelope.
#[verifier::ext_equal]
pub struct EnvelopeView {
    pub ver: u8,
    pub ts: u64,
    pub ttl: u32,
    pub epk: Seq<u8>,
    pub tag: Seq<u8>,
    pub pow_nonce: u64,
    pub nonce: Seq<u8>,
    pub ciphertext: Seq<u8>,
    pub mac: Seq<u8>,
}

impl View for Envelope {
    type V = EnvelopeView;

    open spec fn view(&self) -> EnvelopeView {
        EnvelopeView {
            ver: self.ver,
            ts: self.ts,
            ttl: self.ttl,
            epk: self.epk@,
            tag: self.tag@,
            pow_nonce: self.pow_nonce,
            nonce: self.nonce@,
            ciphertext: self.ciphertext@,
            mac: self.mac@,
        }
    }
}

impl PartialEq for Envelope {
    fn eq(&self, other: &Envelope) -> (r: bool) {
        let r = self.ver == other.ver && self.ts == other.ts && self.ttl == other.ttl
            && crate::util::constant_time_eq(self.epk.as_slice(), other.epk.as_slice())
            && crate::util::constant_time_eq(self.tag.as_slice(), other.tag.as_slice())
            && self.pow_nonce == other.pow_nonce && crate::util::constant_time_eq(
            self.nonce.as_slice(),
            other.nonce.as_slice(),
        ) && crate::util::constant_time_eq(self.ciphertext.as_slice(), other.ciphertext.as_slice())
            && crate::util::constant_time_eq(self.mac.as_slice(), other.mac.as_slice());
        proof {
            if self.ver == other.ver && self.ts == other.ts && self.ttl == other.ttl && self.epk@
                == other.epk@ && self.tag@ == other.tag@ && self.pow_nonce == other.pow_nonce
                && self.nonce@ == other.nonce@ && self.ciphertext@ == other.ciphertext@ && self.mac@
                == other.mac@ {
                assert(self@ =~= other@);
            }
        }
        r
    }
}

impl vstd::std_specs::cmp::PartialEqSpecImpl for Envelope {
    open spec fn obeys_eq_spec() -> bool {
        true
    }

    open spec fn eq_spec(&self, other: &Envelope) -> bool {
        self@ == other@
    }
}

/// Field sizes the wire format fixes: a 32-byte ephemeral key, a 24-byte AEAD
/// nonce, a 16-byte AEAD tag, and 32-bit length prefixes.
pub open spec fn env_wf(e: EnvelopeView) -> bool {
    e.epk.len() == 32 && e.nonce.len() == 24 && e.mac.len() == 16 && e.tag.len() <= u32::MAX
        && e.ciphertext.len() <= u32::MAX
}

/// Canonical envelope serialization: `ver (1B) | ts (8B LE) | ttl (4B LE) |
/// epk (32B) | tag_len (4B LE) | tag | pow_nonce (8B LE) | nonce (24B) |
/// ct_len (4B LE) | ciphertext | mac (16B)`.
pub open spec fn env_bytes(e: EnvelopeView) -> Seq<u8> {
    seq![e.ver] + spec_u64_to_le_bytes(e.ts) + spec_u32_to_le_bytes(e.ttl) + e.epk
        + spec_u32_to_le_bytes(e.tag.len() as u32) + e.tag + spec_u64_to_le_bytes(e.pow_nonce)
        + e.nonce + spec_u32_to_le_bytes(e.ciphertext.len() as u32) + e.ciphertext + e.mac
}

/// Strict envelope parse: `Some` exactly when the buffer is the serialization
/// of one envelope.
pub open spec fn env_parse(d: Seq<u8>) -> Option<EnvelopeView> {
    if d.len() < 101 {
        None
    } else {
        let tag_len = spec_u32_from_le_bytes(d.subrange(45, 49)) as int;
        if 49 + tag_len + 36 > d.len() {
            None
        } else {
            let c = 49 + tag_len;
            let ct_len = spec_u32_from_le_bytes(d.subrange(c + 32, c + 36)) as int;
            if c + 36 + ct_len + 16 != d.len() {
                None
            } else {
                Some(
                    EnvelopeView {
                        ver: d[0],
                        ts: spec_u64_from_le_bytes(d.subrange(1, 9)),
                        ttl: spec_u32_from_le_bytes(d.subrange(9, 13)),
                        epk: d.subrange(13, 45),
                        tag: d.subrange(49, c),
                        pow_nonce: spec_u64_from_le_bytes(d.subrange(c, c + 8)),
                        nonce: d.subrange(c + 8, c + 32),
                        ciphertext: d.subrange(c + 36, c + 36 + ct_len),
                        mac: d.subrange(c + 36 + ct_len, d.len() as int),
                    },
                )
            }
        }
    }
}

/// Serializing then parsing a well-formed envelope gives it back.
pub proof fn lemma_envelope_round_trip(e: EnvelopeView)
    requires
        env_wf(e),
    ensures
        env_parse(env_bytes(e)) == Some(e),
{
    lemma_auto_spec_u32_to_from_le_bytes();
    lemma_auto_spec_u64_to_from_le_bytes();
    let d = env_bytes(e);
    let tl = e.tag.len() as int;
    let cl = e.ciphertext.len() as int;
    let c = 49 + tl;
    assert(d.len() == 101 + tl + cl);
    assert(d.subrange(45, 49) =~= spec_u32_to_le_bytes(e.tag.len() as u32));
    assert(d.subrange(c + 32, c + 36) =~= spec_u32_to_le_bytes(e.ciphertext.len() as u32));
    assert(d[0] == e.ver);
    assert(d.subrange(1, 9) =~= spec_u64_to_le_bytes(e.ts));
    assert(d.subrange(9, 13) =~= spec_u32_to_le_bytes(e.ttl));
    assert(d.subrange(13, 45) =~= e.epk);
    assert(d.subrange(49, c) =~= e.tag);
    assert(d.subrange(c, c + 8) =~= spec_u64_to_le_bytes(e.pow_nonce));
    assert(d.subrange(c + 8, c + 32) =~= e.nonce);
    assert(d.subrange(c + 36, c + 36 + cl) =~= e.ciphertext);
    assert(d.subrange(c + 36 + cl, d.len() as int) =~= e.mac);
    assert(env_parse(d).unwrap() =~= e);
}

/// Cutting a serialized envelope short at any offset leaves nothing that
/// parses: every truncation is rejected.
pub proof fn lemma_envelope_truncation(e: EnvelopeView, k: int)
    requires
        env_wf(e),
        0 <= k < env_bytes(e).len(),
    ensures
        env_parse(env_bytes(e).subrange(0, k)) is None,
{
    lemma_auto_spec_u32_to_from_le_bytes();
    lemma_auto_spec_u64_to_from_le_bytes();
    let d = env_bytes(e);
    let t = d.subrange(0, k);
    let tl = e.tag.len() as int;
    let cl = e.ciphertext.len() as int;
    let c = 49 + tl;
    assert(d.len() == 101 + tl + cl);
    assert(d.subrange(45, 49) =~= spec_u32_to_le_bytes(e.tag.len() as u32));
    assert(d.subrange(c + 32, c + 36) =~= spec_u32_to_le_bytes(e.ciphertext.len() as u32));
    if k < 101 {
        assert(env_parse(t) is None);
    } else {
        assert(t.subrange(45, 49) =~= d.subrange(45, 49));
        if 49 + tl + 36 > k {
            assert(env_parse(t) is None);
        } else {
            assert(t.subrange(c + 32, c + 36) =~= d.subrange(c + 32, c + 36));
            assert(c + 36 + cl + 16 == d.len());
            assert(env_parse(t) is None);
        }
    }
}

impl Envelope {
    /// Serializes the envelope in the canonical layout.
    pub fn to_bytes(&self) -> (out: Vec<u8>)
        requires
            env_wf(self@),
            101 + self.tag@.len() + self.ciphertext@.len() <= usize::MAX,
        ensures
            out@ == env_bytes(self@),
    {
        let mut out: Vec<u8> = Vec::new();
        out.push(self.ver);
        let b = u64_to_le_bytes(self.ts);
        out.extend_from_slice(b.as_slice());
        let b = u32_to_le_bytes(self.ttl);
        out.extend_from_slice(b.as_slice());
        out.extend_from_slice(self.epk.as_slice());
        let b = u32_to_le_bytes(self.tag.len() as u32);
        out.extend_from_slice(b.as_slice());
        out.extend_from_slice(self.tag.as_slice());
        let b = u64_to_le_bytes(self.pow_nonce);
        out.extend_from_slice(b.as_slice());
        out.extend_from_slice(self.nonce.as_slice());
        let b = u32_to_le_bytes(self.ciphertext.len() as u32);
        out.extend_from_slice(b.as_slice());
        out.extend_from_slice(self.ciphertext.as_slice());
        out.extend_from_slice(self.mac.as_slice());
        proof {
            assert(out@ =~= env_bytes(self@));
        }
        out
    }

    /// Parses an envelope from the canonical layout. Rejects truncated or
    /// inconsistent buffers with [`CoreError::Malformed`]; never reads out of
    /// bounds.
    pub fn from_bytes(data: &[u8]) -> (r: Result<Envelope, CoreError>)
        ensures
            r matches Ok(e) ==> env_parse(data@) == Some(e@) && env_wf(e@),
            r matches Err(err) ==> env_parse(data@) is None && err == CoreError::Malformed,
    {
        let n = data.len();
        if n < 101 {
            return Err(CoreError::Malformed);
        }
        let ver = data[0];
        let ts = u64_from_le_bytes(slice_subrange(data, 1, 9));
        let ttl = u32_from_le_bytes(slice_subrange(data, 9, 13));
        let epk = slice_to_vec(slice_subrange(data, 13, 45));
        let tag_len = u32_from_le_bytes(slice_subrange(data, 45, 49)) as usize;
        if tag_len > n - 85 {
            return Err(CoreError::Malformed);
        }
        let c = 49 + tag_len;
        let tag = slice_to_vec(slice_subrange(data, 49, c));
        let pow_nonce = u64_from_le_bytes(slice_subrange(data, c, c + 8));
        let nonce = slice_to_vec(slice_subrange(data, c + 8, c + 32));
        let ct_len = u32_from_le_bytes(slice_subrange(data, c + 32, c + 36)) as usize;
        let remaining = n - (c + 36);
        if remaining < 16 || ct_len != remaining - 16 {
            return Err(CoreError::Malformed);
        }
        let ciphertext = slice_to_vec(slice_subrange(data, c + 36, c + 36 + ct_len));
        let mac = slice_to_vec(slice_subrange(data, c + 36 + ct_len, n));
        let e = Envelope { ver, ts, ttl, epk, tag, pow_nonce, nonce, ciphertext, mac };
        proof {
            assert(env_parse(data@).unwrap() =~= e@);
        }
        Ok(e)
    }
}

/// The HKDF info string shared by the encryption and tag keys,
/// `"pc.enc|pc.tag"`: domain separation rests entirely on the fixed byte
/// offsets into the one expand call.
pub open spec fn kdf_info() -> Seq<u8> {
    seq![112u8, 99u8, 46u8, 101u8, 110u8, 99u8, 124u8, 112u8, 99u8, 46u8, 116u8, 97u8, 103u8]
}

/// The info string as bytes.
fn kdf_info_bytes() -> (r: Vec<u8>)
    ensures
        r@ == kdf_info(),
{
    let mut v: Vec<u8> = Vec::new();
    v.push(112u8);
    v.push(99u8);
    v.push(46u8);
    v.push(101u8);
    v.push(110u8);
    v.push(99u8);
    v.push(124u8);
    v.push(112u8);
    v.push(99u8);
    v.push(46u8);
    v.push(116u8);
    v.push(97u8);
    v.push(103u8);
    proof {
        assert(v@ =~= kdf_info());
    }
    v
}

/// The encryption key: the first half of the 64-byte HKDF output over the
/// shared secret.
pub open spec fn enc_key_of(shared: Seq<u8>) -> Seq<u8> {
    hkdf_okm(shared, kdf_info(), 64).subrange(0, 32)
}

/// The tag key: the second half of the same HKDF output.
pub open spec fn tag_key_of(shared: Seq<u8>) -> Seq<u8> {
    hkdf_okm(shared, kdf_info(), 64).subrange(32, 64)
}

/// The recipient tag: an HMAC over the message id under the tag key.
pub open spec fn stealth_tag(shared: Seq<u8>, msg_id: u128) -> Seq<u8> {
    hmac_sha256_of(tag_key_of(shared), spec_u128_to_le_bytes(msg_id))
}

/// The header the proof-of-work is computed over: version 1, zero
/// placeholders where `ts` and `ttl` will stand, the ephemeral public key and
/// the tag. The placeholders stay zero deliberately, so the work factor is
/// bound to the key and tag but not to the claimed freshness window.
pub open spec fn pow_header(epk: Seq<u8>, tag: Seq<u8>) -> Seq<u8> {
    seq![1u8] + spec_u64_to_le_bytes(0u64) + spec_u32_to_le_bytes(0u32) + epk + tag
}

/// Builds the proof-of-work header bytes.
pub fn pow_header_bytes(epk: &Vec<u8>, tag: &Vec<u8>) -> (r: Vec<u8>)
    requires
        epk@.len() + tag@.len() + 13 <= usize::MAX,
    ensures
        r@ == pow_header(epk@, tag@),
{
    let mut out: Vec<u8> = Vec::new();
    out.push(1u8);
    let b = u64_to_le_bytes(0u64);
    out.extend_from_slice(b.as_slice());
    let b = u32_to_le_bytes(0u32);
    out.extend_from_slice(b.as_slice());
    out.extend_from_slice(epk.as_slice());
    out.extend_from_slice(tag.as_slice());
    proof {
        assert(out@ =~= pow_header(epk@, tag@));
    }
    out
}

/// What construction guarantees, for the ephemeral secret it drew: the
/// envelope's key, tag and sealed payload all derive from the one shared
/// secret, and whoever holds a secret for `spend_pub` reaches that same
/// shared secret through `epk`.
pub open spec fn constructed_for(
    env: EnvelopeView,
    spend_pub: Seq<u8>,
    eph: Seq<u8>,
    p: PayloadView,
) -> bool {
    let shared = x25519_fn(eph, spend_pub);
    &&& eph.len() == 32
    &&& env.epk == x25519_fn(eph, basepoint())
    &&& !all_zero(shared)
    &&& env.tag == stealth_tag(shared, p.msg_id)
    &&& env.ciphertext + env.mac == xchacha_seal(enc_key_of(shared), env.nonce, payload_bytes(p))
    &&& forall|s2: Seq<u8>|
        spend_pub == x25519_fn(s2, basepoint()) ==> shared == x25519_fn(s2, env.epk)
}

/// The sealed intermediate of construction, before the proof-of-work.
struct SealedParts {
    epk: Vec<u8>,
    tag: Vec<u8>,
    nonce: Vec<u8>,
    ciphertext: Vec<u8>,
    mac: Vec<u8>,
}

/// Law (confidentiality path): an envelope constructed for a spend public key
/// satisfies, under the matching secret, exactly the hypotheses of
/// [`Envelope::decrypt`]'s success clause and of the recipient tag check —
/// the true recipient recovers the payload and the tag verifies.
pub proof fn lemma_construct_decrypt(
    env: EnvelopeView,
    secret: Seq<u8>,
    eph: Seq<u8>,
    p: PayloadView,
)
    requires
        constructed_for(env, x25519_fn(secret, basepoint()), eph, p),
    ensures
        !all_zero(x25519_fn(secret, env.epk)),
        env.ciphertext + env.mac == xchacha_seal(
            enc_key_of(x25519_fn(secret, env.epk)),
            env.nonce,
            payload_bytes(p),
        ),
        env.tag == stealth_tag(x25519_fn(secret, env.epk), p.msg_id),
{
    let spend_pub = x25519_fn(secret, basepoint());
    let shared = x25519_fn(eph, spend_pub);
    assert(shared == x25519_fn(secret, env.epk));
}

impl Envelope {
    /// Seals a payload for a recipient: fresh ephemeral ECDH, HKDF key split,
    /// recipient tag, AEAD encryption under a fresh nonce.
    fn seal_for(
        spend_pub: &[u8],
        msg_id: u128,
        sender_fp: u32,
        ratchet_header: Vec<u8>,
        body: Vec<u8>,
    ) -> (r: Result<SealedParts, CoreError>)
        requires
            spend_pub@.len() == 32,
            28 + ratchet_header@.len() + body@.len() <= 0x1000_0000,
        ensures
            r matches Ok(sp) ==> {
                let pv = PayloadView {
                    msg_id,
                    sender_fp,
                    ratchet_header: ratchet_header@,
                    body: body@,
                };
                &&& sp.epk@.len() == 32
                &&& sp.tag@.len() == 32
                &&& sp.nonce@.len() == 24
                &&& sp.mac@.len() == 16
                &&& sp.ciphertext@.len() == 28 + ratchet_header@.len() + body@.len()
                &&& exists|eph: Seq<u8>|
                    constructed_for(
                        EnvelopeView {
                            ver: 1u8,
                            ts: 0u64,
                            ttl: 0u32,
                            epk: sp.epk@,
                            tag: sp.tag@,
                            pow_nonce: 0u64,
                            nonce: sp.nonce@,
                            ciphertext: sp.ciphertext@,
                            mac: sp.mac@,
                        },
                        spend_pub@,
                        eph,
                        pv,
                    )
            },
            r matches Err(e) ==> e == CoreError::CryptoFailure && (exists|eph: Seq<u8>|
                eph.len() == 32 && all_zero(x25519_fn(eph, spend_pub@))),
    {
        proof {
            lemma_auto_spec_u128_to_from_le_bytes();
            lemma_auto_spec_u32_to_from_le_bytes();
        }
        let eph_secret = random_bytes(32);
        let bp = basepoint_bytes();
        let epk = x25519_mul(eph_secret.as_slice(), bp.as_slice());
        let shared = x25519_mul(eph_secret.as_slice(), spend_pub);
        if is_all_zero(shared.as_slice()) {
            proof {
                assert(eph_secret@.len() == 32 && all_zero(x25519_fn(eph_secret@, spend_pub@)));
            }
            return Err(CoreError::CryptoFailure);
        }
        let info = kdf_info_bytes();
        let okm = hkdf_sha256(shared.as_slice(), info.as_slice(), 64);
        let enc_key = slice_to_vec(slice_subrange(okm.as_slice(), 0, 32));
        let tag_key = slice_to_vec(slice_subrange(okm.as_slice(), 32, 64));
        let mid = u128_to_le_bytes(msg_id);
        let tag = hmac_sha256(tag_key.as_slice(), mid.as_slice());
        let payload = Payload { msg_id, sender_fp, ratchet_header, body };
        let payload_bytes_v = payload.to_bytes();
        let nonce = random_bytes(24);
        let sealed = xchacha_encrypt(enc_key.as_slice(), nonce.as_slice(), payload_bytes_v.as_slice());
        let sl = sealed.len();
        let ciphertext = slice_to_vec(slice_subrange(sealed.as_slice(), 0, sl - 16));
        let mac = slice_to_vec(slice_subrange(sealed.as_slice(), sl - 16, sl));
        let sp = SealedParts { epk, tag, nonce, ciphertext, mac };
        proof {
            let pv = PayloadView { msg_id, sender_fp, ratchet_header: ratchet_header@, body: body@ };
            let ev = EnvelopeView {
                ver: 1u8,
                ts: 0u64,
                ttl: 0u32,
                epk: sp.epk@,
                tag: sp.tag@,
                pow_nonce: 0u64,
                nonce: sp.nonce@,
                ciphertext: sp.ciphertext@,
                mac: sp.mac@,
            };
            assert(enc_key@ =~= enc_key_of(shared@));
            assert(tag_key@ =~= tag_key_of(shared@));
            assert(sp.ciphertext@ + sp.mac@ =~= sealed@);
            assert(constructed_for(ev, spend_pub@, eph_secret@, pv));
        }
        Ok(sp)
    }

    /// Builds a stealth envelope: seals the payload for the recipient's spend
    /// public key, computes the proof-of-work nonce (an unbounded, CPU-bound
    /// search), and stamps the current time. Fails only when the ephemeral
    /// exchange lands on the all-zero shared secret.
    pub fn new(
        spend_pub: &[u8],
        msg_id: u128,
        sender_fp: u32,
        ratchet_header: Vec<u8>,
        body: Vec<u8>,
        ttl: u32,
        pow_difficulty: u32,
    ) -> (r: Result<Envelope, CoreError>)
        requires
            spend_pub@.len() == 32,
            28 + ratchet_header@.len() + body@.len() <= 0x1000_0000,
        ensures
            r matches Ok(env) ==> {
                let pv = PayloadView {
                    msg_id,
                    sender_fp,
                    ratchet_header: ratchet_header@,
                    body: body@,
                };
                &&& env_wf(env@)
                &&& env@.ver == 1
                &&& env@.ttl == ttl
                &&& env@.tag.len() == 32
                &&& env@.ciphertext.len() == 28 + ratchet_header@.len() + body@.len()
                &&& pow_ok(pow_difficulty, pow_header(env@.epk, env@.tag), env@.pow_nonce)
                    || (forall|k: u64| !pow_ok(pow_difficulty, pow_header(env@.epk, env@.tag), k))
                &&& exists|eph: Seq<u8>| constructed_for(env@, spend_pub@, eph, pv)
            },
            r matches Err(e) ==> e == CoreError::CryptoFailure && (exists|eph: Seq<u8>|
                eph.len() == 32 && all_zero(x25519_fn(eph, spend_pub@))),
    {
        let sp = match Self::seal_for(spend_pub, msg_id, sender_fp, ratchet_header, body) {
            Ok(sp) => sp,
            Err(e) => {
                return Err(e);
            },
        };
        let header = pow_header_bytes(&sp.epk, &sp.tag);
        proof {
            lemma_auto_spec_u32_to_from_le_bytes();
            lemma_auto_spec_u64_to_from_le_bytes();
            assert(header@.len() == 77);
        }
        let pow = Hashcash::new(pow_difficulty);
        let pow_nonce = pow.compute_nonce(header.as_slice());
        let ts = now_millis();
        let env = Envelope {
            ver: 1,
            ts,
            ttl,
            epk: sp.epk,
            tag: sp.tag,
            pow_nonce,
            nonce: sp.nonce,
            ciphertext: sp.ciphertext,
            mac: sp.mac,
        };
        proof {
            let pv = PayloadView { msg_id, sender_fp, ratchet_header: ratchet_header@, body: body@ };
            let eph = choose|eph: Seq<u8>|
                constructed_for(
                    EnvelopeView {
                        ver: 1u8,
                        ts: 0u64,
                        ttl: 0u32,
                        epk: env@.epk,
                        tag: env@.tag,
                        pow_nonce: 0u64,
                        nonce: env@.nonce,
                        ciphertext: env@.ciphertext,
                        mac: env@.mac,
                    },
                    spend_pub@,
                    eph,
                    pv,
                );
            assert(constructed_for(env@, spend_pub@, eph, pv));
        }
        Ok(env)
    }

    /// Like [`Envelope::new`], but bounds the proof-of-work search to
    /// `max_attempts` candidate nonces and reports [`CoreError::Timeout`]
    /// when the deadline is exhausted.
    pub fn new_bounded(
        spend_pub: &[u8],
        msg_id: u128,
        sender_fp: u32,
        ratchet_header: Vec<u8>,
        body: Vec<u8>,
        ttl: u32,
        pow_difficulty: u32,
        max_attempts: u64,
    ) -> (r: Result<Envelope, CoreError>)
        requires
            spend_pub@.len() == 32,
            28 + ratchet_header@.len() + body@.len() <= 0x1000_0000,
        ensures
            r matches Ok(env) ==> {
                let pv = PayloadView {
                    msg_id,
                    sender_fp,
                    ratchet_header: ratchet_header@,
                    body: body@,
                };
                &&& env_wf(env@)
                &&& env@.ver == 1
                &&& env@.ttl == ttl
                &&& env@.tag.len() == 32
                &&& env@.ciphertext.len() == 28 + ratchet_header@.len() + body@.len()
                &&& pow_ok(pow_difficulty, pow_header(env@.epk, env@.tag), env@.pow_nonce)
                &&& exists|eph: Seq<u8>| constructed_for(env@, spend_pub@, eph, pv)
            },
            r matches Err(e) ==> e == CoreError::CryptoFailure || e == CoreError::Timeout,
            r == Err::<Envelope, CoreError>(CoreError::CryptoFailure) ==> exists|eph: Seq<u8>|
                eph.len() == 32 && all_zero(x25519_fn(eph, spend_pub@)),
            r == Err::<Envelope, CoreError>(CoreError::Timeout) ==> exists|epk: Seq<u8>, tag: Seq<u8>|
                #![trigger pow_header(epk, tag)]
                forall|k: u64| k < max_attempts ==> !pow_ok(pow_difficulty, pow_header(epk, tag), k),
    {
        let sp = match Self::seal_for(spend_pub, msg_id, sender_fp, ratchet_header, body) {
            Ok(sp) => sp,
            Err(e) => {
                return Err(e);
            },
        };
        let header = pow_header_bytes(&sp.epk, &sp.tag);
        proof {
            lemma_auto_spec_u32_to_from_le_bytes();
            lemma_auto_spec_u64_to_from_le_bytes();
            assert(header@.len() == 77);
        }
        let pow = Hashcash::new(pow_difficulty);
        let pow_nonce = match pow.compute_nonce_bounded(header.as_slice(), max_attempts) {
            Some(n) => n,
            None => {
                return Err(CoreError::Timeout);
            },
        };
        let ts = now_millis();
        let env = Envelope {
            ver: 1,
            ts,
            ttl,
            epk: sp.epk,
            tag: sp.tag,
            pow_nonce,
            nonce: sp.nonce,
            ciphertext: sp.ciphertext,
            mac: sp.mac,
        };
        proof {
            let pv = PayloadView { msg_id, sender_fp, ratchet_header: ratchet_header@, body: body@ };
            let eph = choose|eph: Seq<u8>|
                constructed_for(
                    EnvelopeView {
                        ver: 1u8,
                        ts: 0u64,
                        ttl: 0u32,
                        epk: env@.epk,
                        tag: env@.tag,
                        pow_nonce: 0u64,
                        nonce: env@.nonce,
                        ciphertext: env@.ciphertext,
                        mac: env@.mac,
                    },
                    spend_pub@,
                    eph,
                    pv,
                );
            assert(constructed_for(env@, spend_pub@, eph, pv));
        }
        Ok(env)
    }

    /// Opens the envelope with a spend key: recomputes the shared secret and
    /// the encryption key, AEAD-decrypts, and parses the payload. Succeeds on
    /// exactly the payloads sealed under the key this spend secret reaches;
    /// every failure is a typed error, and to the caller a tampered envelope
    /// and one addressed elsewhere look alike.
    pub fn decrypt(&self, spend_key: &SpendKey) -> (r: Result<Payload, CoreError>)
        requires
            spend_key.secret@.len() == 32,
        ensures
            ({
                let shared = x25519_fn(spend_key.secret@, self.epk@);
                &&& (r matches Ok(p) ==> payload_wf(p@) && !all_zero(shared) && self.ciphertext@
                    + self.mac@ == xchacha_seal(
                    enc_key_of(shared),
                    self.nonce@,
                    payload_bytes(p@),
                ))
                &&& (forall|pm: PayloadView|
                    {
                        (self.epk@.len() == 32 && self.nonce@.len() == 24 && self.mac@.len() == 16
                            && !all_zero(shared) && payload_wf(pm) && payload_bytes(pm).len()
                            <= 0x1000_0000 && self.ciphertext@ + self.mac@ == xchacha_seal(
                            enc_key_of(shared),
                            self.nonce@,
                            payload_bytes(pm),
                        )) ==> (r matches Ok(p) && p@ == pm)
                    })
                &&& (r matches Err(e) ==> (e == CoreError::Malformed || e
                    == CoreError::AuthenticationFailed || e == CoreError::CryptoFailure))
                &&& ((self.epk@.len() != 32 || self.nonce@.len() != 24 || self.mac@.len() != 16)
                    ==> r == Err::<Payload, CoreError>(CoreError::Malformed))
                &&& ((self.epk@.len() == 32 && self.nonce@.len() == 24 && self.mac@.len() == 16
                    && all_zero(shared)) ==> r == Err::<Payload, CoreError>(
                    CoreError::CryptoFailure,
                ))
            }),
    {
        let ghost shared_g = x25519_fn(spend_key.secret@, self.epk@);
        if self.epk.len() != 32 || self.nonce.len() != 24 || self.mac.len() != 16 {
            return Err(CoreError::Malformed);
        }
        let shared = x25519_mul(spend_key.secret.as_slice(), self.epk.as_slice());
        if is_all_zero(shared.as_slice()) {
            return Err(CoreError::CryptoFailure);
        }
        let info = kdf_info_bytes();
        let okm = hkdf_sha256(shared.as_slice(), info.as_slice(), 64);
        let enc_key = slice_to_vec(slice_subrange(okm.as_slice(), 0, 32));
        proof {
            assert(enc_key@ =~= enc_key_of(shared_g));
        }
        let mut sealed = slice_to_vec(self.ciphertext.as_slice());
        sealed.extend_from_slice(self.mac.as_slice());
        proof {
            assert(sealed@ =~= self.ciphertext@ + self.mac@);
        }
        match xchacha_decrypt(enc_key.as_slice(), self.nonce.as_slice(), sealed.as_slice()) {
            Some(pt) => {
                match Payload::from_bytes(pt.as_slice()) {
                    Some(p) => {
                        proof {
                            lemma_payload_parse_bytes(pt@);
                            assert forall|pm: PayloadView|
                                payload_wf(pm) && payload_bytes(pm).len() <= 0x1000_0000 && sealed@
                                    == xchacha_seal(
                                    enc_key_of(shared_g),
                                    self.nonce@,
                                    payload_bytes(pm),
                                ) implies p@ == pm by {
                                lemma_payload_round_trip(pm);
                            }
                        }
                        Ok(p)
                    },
                    None => {
                        proof {
                            assert forall|pm: PayloadView|
                                !(payload_wf(pm) && payload_bytes(pm).len() <= 0x1000_0000
                                    && sealed@ == xchacha_seal(
                                    enc_key_of(shared_g),
                                    self.nonce@,
                                    payload_bytes(pm),
                                )) by {
                                if payload_wf(pm) && payload_bytes(pm).len() <= 0x1000_0000
                                    && sealed@ == xchacha_seal(
                                    enc_key_of(shared_g),
                                    self.nonce@,
                                    payload_bytes(pm),
                                ) {
                                    lemma_payload_round_trip(pm);
                                    assert(false);
                                }
                            }
                        }
                        Err(CoreError::Malformed)
                    },
                }
            },
            None => {
                proof {
                    assert forall|pm: PayloadView|
                        !(payload_wf(pm) && payload_bytes(pm).len() <= 0x1000_0000 && sealed@
                            == xchacha_seal(
                            enc_key_of(shared_g),
                            self.nonce@,
                            payload_bytes(pm),
                        )) by {}
                }
                Err(CoreError::AuthenticationFailed)
            },
        }
    }

    /// Recomputes the recipient tag from the spend key and a message id and
    /// compares it in constant time against the embedded tag. The message id
    /// only becomes known after a successful decrypt, so this is a second,
    /// independent check over the recovered payload's id.
    pub fn verify_recipient(&self, spend_key: &SpendKey, msg_id: u128) -> (r: bool)
        requires
            spend_key.secret@.len() == 32,
        ensures
            r == (self.epk@.len() == 32 && self.tag@ == stealth_tag(
                x25519_fn(spend_key.secret@, self.epk@),
                msg_id,
            )),
    {
        if self.epk.len() != 32 {
            return false;
        }
        let shared = x25519_mul(spend_key.secret.as_slice(), self.epk.as_slice());
        let info = kdf_info_bytes();
        let okm = hkdf_sha256(shared.as_slice(), info.as_slice(), 64);
        let tag_key = slice_to_vec(slice_subrange(okm.as_slice(), 32, 64));
        proof {
            assert(tag_key@ =~= tag_key_of(shared@));
        }
        let mid = u128_to_le_bytes(msg_id);
        let calculated = hmac_sha256(tag_key.as_slice(), mid.as_slice());
        constant_time_eq(calculated.as_slice(), self.tag.as_slice())
    }

    /// Checks the envelope's proof-of-work nonce at a difficulty, as a relay
    /// would before accepting it.
    pub fn verify_pow(&self, difficulty: u32) -> (r: Result<(), CoreError>)
        requires
            self.epk@.len() + self.tag@.len() + 21 <= usize::MAX,
        ensures
            r is Ok <==> pow_ok(difficulty, pow_header(self.epk@, self.tag@), self.pow_nonce),
            r matches Err(e) ==> e == CoreError::ProofOfWorkInvalid,
    {
        let header = pow_header_bytes(&self.epk, &self.tag);
        proof {
            lemma_auto_spec_u32_to_from_le_bytes();
            lemma_auto_spec_u64_to_from_le_bytes();
            assert(header@.len() == 13 + self.epk@.len() + self.tag@.len());
        }
        let pow = Hashcash::new(difficulty);
        if pow.verify(header.as_slice(), self.pow_nonce) {
            Ok(())
        } else {
            Err(CoreError::ProofOfWorkInvalid)
        }
    }
}

} // verus!
