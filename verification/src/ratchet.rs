//! Double-ratchet session: a per-message symmetric chain with a
//! Diffie-Hellman re-key when the peer's ratchet key turns over.
//!
//! Each send advances the send chain — `chain_{n+1} = H(chain_n || n+1)` —
//! and seals the plaintext under a message key derived from the new chain
//! key. Because every message key is used exactly once, the AEAD nonce is
//! fixed at zero. Each receive advances the receive chain the same way;
//! message keys that a jump ahead skips over are cached in a bounded list
//! keyed by (ratchet generation, counter), oldest evicted first, and entries
//! older than a fixed window are purged, so a late message beyond the window
//! fails with [`RatchetError::DecryptionFailed`]. When an incoming header
//! carries a new ratchet key, the session re-keys: a fresh local pair is
//! drawn, the root key becomes `H(root || ECDH(fresh, new_peer))`, and the
//! receive chain restarts from the new root.

use vstd::prelude::*;

verus! {

use vstd::bytes::{
    spec_u32_to_le_bytes,
    spec_u32_from_le_bytes,
    u32_to_le_bytes,
    u32_from_le_bytes,
    lemma_auto_spec_u32_to_from_le_bytes,
};
use vstd::slice::{slice_subrange, slice_to_vec};
use crate::crypto::{basepoint, basepoint_bytes, random_bytes, x25519_fn, x25519_mul, xchacha_decrypt, xchacha_encrypt, xchacha_seal};
use crate::util::{all_zero, constant_time_eq, is_all_zero, sha256, sha256_of};

/// Failure of ratchet processing. A missing, expired or unauthentic message
/// key is never passed through silently.
#[derive(Debug, Clone, Copy, PartialEq, Eq, Structural)]
pub enum RatchetError {
    /// The message key was missing or expired, or authentication failed.
    DecryptionFailed,
}

/// Capacity of the skipped-key cache; beyond it the oldest entry is evicted.
pub const MAX_SKIPPED: usize = 64;

/// Furthest a single receive may jump ahead of the current counter.
pub const MAX_SKIP_AHEAD: u32 = 256;

/// Skipped keys more than this many counters behind the current one are
/// purged.
pub const SKIP_WINDOW: u32 = 256;

/// One chain step: hash the chain key with the new counter.
pub open spec fn chain_step(chain: Seq<u8>, n: u32) -> Seq<u8> {
    sha256_of(chain + spec_u32_to_le_bytes(n))
}

/// The message key of a chain key: a domain-separated hash of it.
pub open spec fn msg_key_of(chain: Seq<u8>) -> Seq<u8> {
    sha256_of(chain + seq![1u8])
}

/// The chain after stepping through counters `from + 1 ..= to`.
pub open spec fn chain_after(chain: Seq<u8>, from: int, to: int) -> Seq<u8>
    decreases to - from,
{
    if to <= from {
        chain
    } else {
        chain_step(chain_after(chain, from, to - 1), to as u32)
    }
}

/// A chain's starting value: hash of the root key and a ratchet public key.
pub open spec fn initial_chain(root: Seq<u8>, pk: Seq<u8>) -> Seq<u8> {
    sha256_of(root + pk)
}

/// The fixed AEAD nonce; sound because each message key seals one message.
pub open spec fn zero_nonce() -> Seq<u8> {
    Seq::new(24, |i: int| 0u8)
}

/// The ratchet public key an incoming header carries.
pub open spec fn hdr_key(h: Seq<u8>) -> Seq<u8> {
    h.subrange(0, 32)
}

/// The counter an incoming header carries.
pub open spec fn hdr_ctr(h: Seq<u8>) -> u32 {
    spec_u32_from_le_bytes(h.subrange(32, 36))
}

/// The fixed nonce as bytes.
fn zero_nonce_bytes() -> (r: Vec<u8>)
    ensures
        r@ == zero_nonce(),
{
    let mut v: Vec<u8> = Vec::new();
    let mut i: usize = 0;
    while i < 24
        invariant
            0 <= i <= 24,
            v@.len() == i,
            forall|j: int| 0 <= j < i ==> v@[j] == 0u8,
        decreases 24 - i,
    {
        v.push(0u8);
        i = i + 1;
    }
    proof {
        assert(v@ =~= zero_nonce());
    }
    v
}

/// Steps a chain key once.
fn chain_step_bytes(chain: &[u8], n: u32) -> (r: Vec<u8>)
    requires
        chain@.len() == 32,
    ensures
        r@ == chain_step(chain@, n),
        r@.len() == 32,
{
    let mut buf = slice_to_vec(chain);
    let nb = u32_to_le_bytes(n);
    buf.extend_from_slice(nb.as_slice());
    proof {
        assert(buf@ =~= chain@ + spec_u32_to_le_bytes(n));
    }
    sha256(buf.as_slice())
}

/// Derives the message key of a chain key.
fn msg_key_bytes(chain: &[u8]) -> (r: Vec<u8>)
    requires
        chain@.len() == 32,
    ensures
        r@ == msg_key_of(chain@),
        r@.len() == 32,
{
    let mut buf = slice_to_vec(chain);
    buf.push(1u8);
    proof {
        assert(buf@ =~= chain@ + seq![1u8]);
    }
    sha256(buf.as_slice())
}

/// One cached skipped message key.
struct SkippedKey {
    gen: u32,
    ctr: u32,
    key: Vec<u8>,
}

/// Model of a cached skipped key.
#[verifier::ext_equal]
pub struct SkippedKeyView {
    pub gen: u32,
    pub ctr: u32,
    pub key: Seq<u8>,
}

impl View for SkippedKey {
    type V = SkippedKeyView;

    closed spec fn view(&self) -> SkippedKeyView {
        SkippedKeyView { gen: self.gen, ctr: self.ctr, key: self.key@ }
    }
}

/// First cached key for a (generation, counter), front of the list first.
pub open spec fn cache_find(sk: Seq<SkippedKeyView>, gen: u32, ctr: u32) -> Option<Seq<u8>>
    decreases sk.len(),
{
    if sk.len() == 0 {
        None
    } else if sk[0].gen == gen && sk[0].ctr == ctr {
        Some(sk[0].key)
    } else {
        cache_find(sk.drop_first(), gen, ctr)
    }
}

proof fn lemma_cache_find_at(sk: Seq<SkippedKeyView>, gen: u32, ctr: u32, i: int)
    requires
        0 <= i < sk.len(),
        sk[i].gen == gen && sk[i].ctr == ctr,
        forall|j: int| 0 <= j < i ==> !(sk[j].gen == gen && sk[j].ctr == ctr),
    ensures
        cache_find(sk, gen, ctr) == Some(sk[i].key),
    decreases i,
{
    if i > 0 {
        lemma_cache_find_at(sk.drop_first(), gen, ctr, i - 1);
    }
}

proof fn lemma_cache_find_none(sk: Seq<SkippedKeyView>, gen: u32, ctr: u32)
    requires
        forall|j: int| 0 <= j < sk.len() ==> !(sk[j].gen == gen && sk[j].ctr == ctr),
    ensures
        cache_find(sk, gen, ctr) is None,
    decreases sk.len(),
{
    if sk.len() > 0 {
        lemma_cache_find_none(sk.drop_first(), gen, ctr);
    }
}

proof fn lemma_cache_find_none_to_all(sk: Seq<SkippedKeyView>, gen: u32, ctr: u32)
    requires
        cache_find(sk, gen, ctr) is None,
    ensures
        forall|j: int| 0 <= j < sk.len() ==> !((#[trigger] sk[j]).gen == gen && sk[j].ctr == ctr),
    decreases sk.len(),
{
    if sk.len() > 0 {
        lemma_cache_find_none_to_all(sk.drop_first(), gen, ctr);
        assert forall|j: int|
            0 <= j < sk.len() implies !((#[trigger] sk[j]).gen == gen && sk[j].ctr == ctr) by {
            if j > 0 {
                assert(sk[j] == sk.drop_first()[j - 1]);
            }
        }
    }
}

proof fn lemma_cache_find_append(
    a: Seq<SkippedKeyView>,
    b: Seq<SkippedKeyView>,
    gen: u32,
    ctr: u32,
)
    requires
        forall|j: int| 0 <= j < a.len() ==> !((#[trigger] a[j]).gen == gen && a[j].ctr == ctr),
    ensures
        cache_find(a + b, gen, ctr) == cache_find(b, gen, ctr),
    decreases a.len(),
{
    if a.len() == 0 {
        assert(a + b =~= b);
    } else {
        assert((a + b).drop_first() =~= a.drop_first() + b);
        lemma_cache_find_append(a.drop_first(), b, gen, ctr);
    }
}

/// Whether a cached key of the current generation fell behind the window.
pub open spec fn expired_entry(k: SkippedKeyView, gen: u32, cnt: u32) -> bool {
    k.gen == gen && k.ctr + SKIP_WINDOW < cnt
}

/// The cache with the expired entries of the current generation removed,
/// order kept.
pub open spec fn purged(sk: Seq<SkippedKeyView>, gen: u32, cnt: u32) -> Seq<SkippedKeyView>
    decreases sk.len(),
{
    if sk.len() == 0 {
        Seq::empty()
    } else if expired_entry(sk[0], gen, cnt) {
        purged(sk.drop_first(), gen, cnt)
    } else {
        seq![sk[0]] + purged(sk.drop_first(), gen, cnt)
    }
}

/// A bounded append: the fresh entries go to the back, and whatever exceeds
/// the capacity leaves from the front, oldest first.
pub open spec fn merged_cache(
    old_cache: Seq<SkippedKeyView>,
    fresh: Seq<SkippedKeyView>,
) -> Seq<SkippedKeyView> {
    let all = old_cache + fresh;
    if all.len() <= MAX_SKIPPED {
        all
    } else {
        all.skip(all.len() - MAX_SKIPPED)
    }
}

/// The message keys a jump from `from` to `to` skips over, as cache entries.
pub open spec fn skipped_chain_keys(chain: Seq<u8>, gen: u32, from: u32, to: u32) -> Seq<
    SkippedKeyView,
> {
    Seq::new(
        if from < to {
            (to - from - 1) as nat
        } else {
            0
        },
        |i: int|
            SkippedKeyView {
                gen,
                ctr: (from + 1 + i) as u32,
                key: msg_key_of(chain_after(chain, from as int, from + 1 + i)),
            },
    )
}

/// Purging keeps exactly the lookups that have not expired.
proof fn lemma_cache_find_purged(sk: Seq<SkippedKeyView>, g: u32, c: u32, gen: u32, ctr: u32)
    ensures
        cache_find(purged(sk, g, c), gen, ctr) == (if gen == g && ctr + SKIP_WINDOW < c {
            None::<Seq<u8>>
        } else {
            cache_find(sk, gen, ctr)
        }),
    decreases sk.len(),
{
    if sk.len() > 0 {
        lemma_cache_find_purged(sk.drop_first(), g, c, gen, ctr);
        if !expired_entry(sk[0], g, c) {
            let p = purged(sk, g, c);
            assert(p == seq![sk[0]] + purged(sk.drop_first(), g, c));
            assert(p[0] == sk[0]);
            assert(p.drop_first() =~= purged(sk.drop_first(), g, c));
        }
    }
}

/// Per-conversation double-ratchet session state.
pub struct RatchetState {
    root_key: Vec<u8>,
    send_chain: Vec<u8>,
    recv_chain: Vec<u8>,
    ratchet_secret: Vec<u8>,
    ratchet_public: Vec<u8>,
    peer_ratchet_public: Vec<u8>,
    send_count: u32,
    recv_count: u32,
    recv_gen: u32,
    skipped: Vec<SkippedKey>,
}

/// Model of a session; the local ratchet secret stays out of it.
#[verifier::ext_equal]
pub struct RatchetView {
    pub root_key: Seq<u8>,
    pub send_chain: Seq<u8>,
    pub recv_chain: Seq<u8>,
    pub ratchet_public: Seq<u8>,
    pub peer_ratchet_public: Seq<u8>,
    pub send_count: u32,
    pub recv_count: u32,
    pub recv_gen: u32,
    pub skipped: Seq<SkippedKeyView>,
}

impl View for RatchetState {
    type V = RatchetView;

    closed spec fn view(&self) -> RatchetView {
        RatchetView {
            root_key: self.root_key@,
            send_chain: self.send_chain@,
            recv_chain: self.recv_chain@,
            ratchet_public: self.ratchet_public@,
            peer_ratchet_public: self.peer_ratchet_public@,
            send_count: self.send_count,
            recv_count: self.recv_count,
            recv_gen: self.recv_gen,
            skipped: self.skipped@.map_values(|k: SkippedKey| k@),
        }
    }
}

impl RatchetView {
    /// All key material is 32 bytes and the cache stays within its bound.
    pub open spec fn wf(self) -> bool {
        &&& self.root_key.len() == 32
        &&& self.send_chain.len() == 32
        &&& self.recv_chain.len() == 32
        &&& self.ratchet_public.len() == 32
        &&& self.peer_ratchet_public.len() == 32
        &&& self.skipped.len() <= MAX_SKIPPED
        &&& forall|i: int| 0 <= i < self.skipped.len() ==> (#[trigger] self.skipped[i]).key.len() == 32
    }
}

/// The receive-side hypothesis under which an incoming message sits on the
/// current chain: the header carries the stored peer key and a counter ahead
/// of the session's, within the skip bound.
pub open spec fn advance_case(st: RatchetView, h: Seq<u8>) -> bool {
    h.len() == 36 && hdr_key(h) == st.peer_ratchet_public && st.recv_count < hdr_ctr(h) && hdr_ctr(
        h,
    ) - st.recv_count <= MAX_SKIP_AHEAD
}

/// The message key such a message must have been sealed under.
pub open spec fn advance_key(st: RatchetView, h: Seq<u8>) -> Seq<u8> {
    msg_key_of(chain_after(st.recv_chain, st.recv_count as int, hdr_ctr(h) as int))
}

/// The receive-side hypothesis for a late message whose key was cached.
pub open spec fn skip_case(st: RatchetView, h: Seq<u8>) -> bool {
    h.len() == 36 && hdr_key(h) == st.peer_ratchet_public && hdr_ctr(h) <= st.recv_count
        && cache_find(st.skipped, st.recv_gen, hdr_ctr(h)) is Some
}

/// Two sessions are in lockstep when one's send side mirrors the other's
/// receive side.
pub open spec fn sessions_paired(a: RatchetView, b: RatchetView) -> bool {
    a.send_chain == b.recv_chain && a.send_count == b.recv_count && a.ratchet_public
        == b.peer_ratchet_public
}

/// Law (in-order delivery): when two sessions are in lockstep, the header the
/// sender attaches next lands in the receiver's current-chain case, the key
/// the receiver derives is exactly the key the sender sealed under, and the
/// advanced sessions are in lockstep again. Together with the contracts of
/// [`RatchetState::encrypt`] and [`RatchetState::decrypt`] this gives: a
/// sequence of sends received in order reproduces every plaintext.
pub proof fn lemma_ratchet_in_order(a: RatchetView, b: RatchetView)
    requires
        sessions_paired(a, b),
        a.ratchet_public.len() == 32,
        a.send_count < u32::MAX,
    ensures
        ({
            let n = (a.send_count + 1) as u32;
            let hdr = a.ratchet_public + spec_u32_to_le_bytes(n);
            &&& hdr.len() == 36
            &&& hdr_key(hdr) == b.peer_ratchet_public
            &&& hdr_ctr(hdr) == n
            &&& advance_case(b, hdr)
            &&& chain_after(b.recv_chain, b.recv_count as int, n as int) == chain_step(
                b.recv_chain,
                n,
            )
            &&& advance_key(b, hdr) == msg_key_of(chain_step(a.send_chain, n))
            &&& sessions_paired(
                RatchetView { send_chain: chain_step(a.send_chain, n), send_count: n, ..a },
                RatchetView { recv_chain: chain_step(b.recv_chain, n), recv_count: n, ..b },
            )
        }),
{
    lemma_auto_spec_u32_to_from_le_bytes();
    let n = (a.send_count + 1) as u32;
    let hdr = a.ratchet_public + spec_u32_to_le_bytes(n);
    assert(hdr.subrange(0, 32) =~= a.ratchet_public);
    assert(hdr.subrange(32, 36) =~= spec_u32_to_le_bytes(n));
    assert(chain_after(b.recv_chain, b.recv_count as int, b.recv_count as int) == b.recv_chain);
    assert(chain_after(b.recv_chain, b.recv_count as int, n as int) == chain_step(
        b.recv_chain,
        n,
    ));
}

impl RatchetState {
    /// Opens a session from a shared root key and the peer's initial ratchet
    /// public key, drawing a fresh local ratchet pair. The send chain starts
    /// from the root and the local public key, the receive chain from the
    /// root and the peer's, so two sessions seeded with the same root and
    /// each other's ratchet public keys are in lockstep both ways.
    pub fn new(root_key: Vec<u8>, peer_ratchet_public: Vec<u8>) -> (r: Self)
        requires
            root_key@.len() == 32,
            peer_ratchet_public@.len() == 32,
        ensures
            r@.wf(),
            r@.root_key == root_key@,
            r@.peer_ratchet_public == peer_ratchet_public@,
            r@.send_chain == initial_chain(root_key@, r@.ratchet_public),
            r@.recv_chain == initial_chain(root_key@, peer_ratchet_public@),
            r@.send_count == 0,
            r@.recv_count == 0,
            r@.recv_gen == 0,
            r@.skipped == Seq::<SkippedKeyView>::empty(),
    {
        let secret = random_bytes(32);
        Self::new_with_ratchet_secret(root_key, peer_ratchet_public, secret)
    }

    /// Like [`RatchetState::new`], but with the local ratchet secret supplied
    /// by the handshake that exchanged the initial ratchet public keys.
    pub fn new_with_ratchet_secret(
        root_key: Vec<u8>,
        peer_ratchet_public: Vec<u8>,
        ratchet_secret: Vec<u8>,
    ) -> (r: Self)
        requires
            root_key@.len() == 32,
            peer_ratchet_public@.len() == 32,
            ratchet_secret@.len() == 32,
        ensures
            r@.wf(),
            r@.root_key == root_key@,
            r@.peer_ratchet_public == peer_ratchet_public@,
            r@.ratchet_public == x25519_fn(ratchet_secret@, basepoint()),
            r@.send_chain == initial_chain(root_key@, r@.ratchet_public),
            r@.recv_chain == initial_chain(root_key@, peer_ratchet_public@),
            r@.send_count == 0,
            r@.recv_count == 0,
            r@.recv_gen == 0,
            r@.skipped == Seq::<SkippedKeyView>::empty(),
    {
        let bp = basepoint_bytes();
        let ratchet_public = x25519_mul(ratchet_secret.as_slice(), bp.as_slice());
        let mut sc_input = slice_to_vec(root_key.as_slice());
        sc_input.extend_from_slice(ratchet_public.as_slice());
        proof {
            assert(sc_input@ =~= root_key@ + ratchet_public@);
        }
        let send_chain = sha256(sc_input.as_slice());
        let mut rc_input = slice_to_vec(root_key.as_slice());
        rc_input.extend_from_slice(peer_ratchet_public.as_slice());
        proof {
            assert(rc_input@ =~= root_key@ + peer_ratchet_public@);
        }
        let recv_chain = sha256(rc_input.as_slice());
        let r = Self {
            root_key,
            send_chain,
            recv_chain,
            ratchet_secret,
            ratchet_public,
            peer_ratchet_public,
            send_count: 0,
            recv_count: 0,
            recv_gen: 0,
            skipped: Vec::new(),
        };
        proof {
            assert(r@.skipped =~= Seq::<SkippedKeyView>::empty());
        }
        r
    }

    /// The session's current ratchet public key, as the handshake and the
    /// outgoing headers carry it.
    pub fn ratchet_public(&self) -> (r: Vec<u8>)
        ensures
            r@ == self@.ratchet_public,
    {
        slice_to_vec(self.ratchet_public.as_slice())
    }

    /// Advances the send chain, seals the plaintext under the new message
    /// key, and returns the ciphertext with the header — the local ratchet
    /// public key and the new counter — that lets the peer place it.
    pub fn encrypt(&mut self, plaintext: &[u8]) -> (r: (Vec<u8>, Vec<u8>))
        requires
            old(self)@.wf(),
            old(self)@.send_count < u32::MAX,
            plaintext@.len() <= 0x1000_0000,
        ensures
            final(self)@.wf(),
            final(self)@.send_count == old(self)@.send_count + 1,
            final(self)@.send_chain == chain_step(
                old(self)@.send_chain,
                (old(self)@.send_count + 1) as u32,
            ),
            final(self)@ == (RatchetView {
                send_chain: final(self)@.send_chain,
                send_count: final(self)@.send_count,
                ..old(self)@
            }),
            r.1@ == old(self)@.ratchet_public + spec_u32_to_le_bytes(
                (old(self)@.send_count + 1) as u32,
            ),
            r.0@ == xchacha_seal(msg_key_of(final(self)@.send_chain), zero_nonce(), plaintext@),
            r.0@.len() == plaintext@.len() + 16,
    {
        let n = self.send_count + 1;
        let new_chain = chain_step_bytes(self.send_chain.as_slice(), n);
        self.send_chain = new_chain;
        self.send_count = n;
        let mk = msg_key_bytes(self.send_chain.as_slice());
        let zn = zero_nonce_bytes();
        let ciphertext = xchacha_encrypt(mk.as_slice(), zn.as_slice(), plaintext);
        let mut header = slice_to_vec(self.ratchet_public.as_slice());
        let nb = u32_to_le_bytes(n);
        header.extend_from_slice(nb.as_slice());
        proof {
            assert(header@ =~= old(self)@.ratchet_public + spec_u32_to_le_bytes(n));
            assert(final(self)@ =~= (RatchetView {
                send_chain: final(self)@.send_chain,
                send_count: final(self)@.send_count,
                ..old(self)@
            }));
        }
        (ciphertext, header)
    }

    /// Steps a chain from one counter to another, collecting the message keys
    /// of the counters skipped over.
    fn derive_forward(chain: &[u8], from: u32, to: u32, gen: u32) -> (r: (Vec<u8>, Vec<SkippedKey>))
        requires
            chain@.len() == 32,
            from < to,
        ensures
            r.0@ == chain_after(chain@, from as int, to as int),
            r.0@.len() == 32,
            r.1@.len() == to - from - 1,
            forall|i: int|
                0 <= i < r.1@.len() ==> ((#[trigger] r.1@[i])@.gen == gen && r.1@[i]@.ctr == from + 1
                    + i && r.1@[i]@.key == msg_key_of(
                    chain_after(chain@, from as int, from + 1 + i),
                ) && r.1@[i]@.key.len() == 32),
    {
        let mut cur = slice_to_vec(chain);
        let mut skipped: Vec<SkippedKey> = Vec::new();
        let mut n = from;
        while n < to
            invariant
                from <= n <= to,
                cur@ == chain_after(chain@, from as int, n as int),
                cur@.len() == 32,
                skipped@.len() == if n > from {
                    (n - from - 1) as int
                } else {
                    0
                },
                forall|i: int|
                    0 <= i < skipped@.len() ==> ((#[trigger] skipped@[i])@.gen == gen
                        && skipped@[i]@.ctr == from + 1 + i && skipped@[i]@.key == msg_key_of(
                        chain_after(chain@, from as int, from + 1 + i),
                    ) && skipped@[i]@.key.len() == 32),
            decreases to - n,
        {
            if n > from {
                let key = msg_key_bytes(cur.as_slice());
                skipped.push(SkippedKey { gen, ctr: n, key });
            }
            let next = chain_step_bytes(cur.as_slice(), n + 1);
            cur = next;
            n = n + 1;
        }
        (cur, skipped)
    }

    /// Appends freshly skipped keys to the cache; beyond the capacity the
    /// oldest entries are evicted, so the cache ends as the bounded append of
    /// the old contents and the fresh keys.
    #[verifier::loop_isolation(false)]
    fn merge_skipped(&mut self, fresh: Vec<SkippedKey>)
        requires
            old(self)@.wf(),
            forall|i: int| 0 <= i < fresh@.len() ==> (#[trigger] fresh@[i])@.key.len() == 32,
        ensures
            final(self)@.wf(),
            final(self)@ == (RatchetView { skipped: final(self)@.skipped, ..old(self)@ }),
            final(self)@.skipped == merged_cache(
                old(self)@.skipped,
                fresh@.map_values(|k: SkippedKey| k@),
            ),
    {
        let ghost orig = fresh@.map_values(|k: SkippedKey| k@);
        proof {
            assert(orig.take(0) =~= Seq::<SkippedKeyView>::empty());
            assert(old(self)@.skipped + orig.take(0) =~= old(self)@.skipped);
        }
        let mut fresh = fresh;
        while fresh.len() > 0
            invariant
                self@.wf(),
                forall|i: int| 0 <= i < fresh@.len() ==> (#[trigger] fresh@[i])@.key.len() == 32,
                self@ == (RatchetView { skipped: self@.skipped, ..old(self)@ }),
                fresh@.len() <= orig.len(),
                forall|i: int|
                    0 <= i < fresh@.len() ==> (#[trigger] fresh@[i])@ == orig[orig.len()
                        - fresh@.len() + i],
                self@.skipped == merged_cache(
                    old(self)@.skipped,
                    orig.take(orig.len() - fresh@.len()),
                ),
            decreases fresh@.len(),
        {
            let ghost done = orig.len() - fresh@.len();
            let ghost o = old(self)@.skipped;
            let ghost c = orig.take(done);
            let ghost pre = self@.skipped;
            let k = fresh.remove(0);
            proof {
                assert(k@ == orig[done]);
            }
            if self.skipped.len() >= MAX_SKIPPED {
                let ghost pre2 = self@.skipped;
                self.skipped.remove(0);
                proof {
                    assert(self@.skipped =~= pre2.drop_first());
                }
            }
            let ghost pre3 = self@.skipped;
            let ghost kv = k@;
            self.skipped.push(k);
            proof {
                assert(self@.skipped =~= pre3.push(kv));
                assert(self@ =~= (RatchetView { skipped: self@.skipped, ..old(self)@ }));
                assert(orig.take(done + 1) =~= c.push(kv));
                if o.len() + c.len() < MAX_SKIPPED {
                    assert(pre =~= o + c);
                    assert(self@.skipped =~= (o + c.push(kv)));
                    assert(self@.skipped =~= merged_cache(o, orig.take(done + 1)));
                } else {
                    let d = o.len() + c.len() - MAX_SKIPPED;
                    assert(pre =~= (o + c).skip(d as int));
                    assert(pre.len() == MAX_SKIPPED);
                    assert(self@.skipped =~= (o + c.push(kv)).skip(d + 1));
                    assert(self@.skipped =~= merged_cache(o, orig.take(done + 1)));
                }
            }
        }
        proof {
            assert(orig.take(orig.len() as int) =~= orig);
        }
    }

    /// Drops cached keys of the current generation that fell behind the
    /// window, keeping everything else in order.
    #[verifier::loop_isolation(false)]
    fn purge_window(&mut self)
        requires
            old(self)@.wf(),
        ensures
            final(self)@.wf(),
            final(self)@ == (RatchetView { skipped: final(self)@.skipped, ..old(self)@ }),
            final(self)@.skipped == purged(
                old(self)@.skipped,
                old(self)@.recv_gen,
                old(self)@.recv_count,
            ),
    {
        let ghost orig = self@.skipped;
        let ghost g = old(self)@.recv_gen;
        let ghost c = old(self)@.recv_count;
        let mut kept: Vec<SkippedKey> = Vec::new();
        while self.skipped.len() > 0
            invariant
                self@.wf(),
                kept@.len() + self.skipped@.len() <= MAX_SKIPPED,
                forall|i: int| 0 <= i < kept@.len() ==> (#[trigger] kept@[i])@.key.len() == 32,
                self@ == (RatchetView { skipped: self@.skipped, ..old(self)@ }),
                kept@.map_values(|k: SkippedKey| k@) + purged(self@.skipped, g, c) == purged(
                    orig,
                    g,
                    c,
                ),
            decreases self.skipped@.len(),
        {
            let ghost pre = self@.skipped;
            let ghost kept_pre = kept@.map_values(|k: SkippedKey| k@);
            let k = self.skipped.remove(0);
            proof {
                assert(k@ == pre[0]);
                assert(k@.key.len() == 32);
                assert(self@.skipped =~= pre.drop_first());
                assert(self@ =~= (RatchetView { skipped: self@.skipped, ..old(self)@ }));
            }
            let expired = k.gen == self.recv_gen && (k.ctr as u64) + (SKIP_WINDOW as u64) < (
            self.recv_count as u64);
            if !expired {
                kept.push(k);
                proof {
                    assert(kept@.map_values(|k: SkippedKey| k@) =~= kept_pre.push(pre[0]));
                    assert(kept_pre.push(pre[0]) + purged(pre.drop_first(), g, c) =~= kept_pre + (
                    seq![pre[0]] + purged(pre.drop_first(), g, c)));
                    assert(!expired_entry(pre[0], g, c));
                    assert(purged(pre, g, c) == seq![pre[0]] + purged(pre.drop_first(), g, c));
                }
            } else {
                proof {
                    assert(expired_entry(pre[0], g, c));
                    assert(purged(pre, g, c) == purged(pre.drop_first(), g, c));
                }
            }
        }
        proof {
            assert(purged(self@.skipped, g, c) =~= Seq::<SkippedKeyView>::empty());
            assert(kept@.map_values(|k: SkippedKey| k@) =~= purged(orig, g, c));
        }
        self.skipped = kept;
        proof {
            assert(self@ =~= (RatchetView { skipped: self@.skipped, ..old(self)@ }));
        }
    }

    /// Opens an incoming message. The header names the chain (ratchet key)
    /// and position (counter); the session advances its receive chain, caches
    /// any skipped keys, consults the cache for late messages, and re-keys
    /// when the peer's ratchet key turned over. A failure of any kind leaves
    /// the session exactly as it was and reports
    /// [`RatchetError::DecryptionFailed`].
    #[verifier::loop_isolation(false)]
    pub fn decrypt(&mut self, header: &[u8], ciphertext: &[u8]) -> (r: Result<
        Vec<u8>,
        RatchetError,
    >)
        requires
            old(self)@.wf(),
        ensures
            final(self)@.wf(),
            final(self)@.send_chain == old(self)@.send_chain,
            final(self)@.send_count == old(self)@.send_count,
            final(self)@.ratchet_public.len() == 32,
            r is Err ==> final(self)@ == old(self)@ && r == Err::<Vec<u8>, RatchetError>(RatchetError::DecryptionFailed),
            r matches Ok(p) ==> p@.len() + 16 == ciphertext@.len(),
            // a message on the current chain, in order or ahead within the
            // skip bound, always opens under the chain's key
            forall|pm: Seq<u8>|
                (advance_case(old(self)@, header@) && pm.len() <= 0x1000_0000 && ciphertext@
                    == xchacha_seal(advance_key(old(self)@, header@), zero_nonce(), pm)) ==> (
                r matches Ok(p) && p@ == pm),
            (advance_case(old(self)@, header@) && r is Ok) ==> (final(self)@.recv_chain
                == chain_after(
                old(self)@.recv_chain,
                old(self)@.recv_count as int,
                hdr_ctr(header@) as int,
            ) && final(self)@.recv_count == hdr_ctr(header@) && final(self)@.recv_gen == old(self)@.recv_gen && final(self)@.peer_ratchet_public == old(self)@.peer_ratchet_public
                && final(self)@.root_key == old(self)@.root_key),
            // soundness: what opened on the current chain authenticated under
            // exactly the chain's key
            advance_case(old(self)@, header@) ==> (r matches Ok(p) ==> ciphertext@ == xchacha_seal(
                advance_key(old(self)@, header@),
                zero_nonce(),
                p@,
            )),
            // after a jump ahead the cache is exactly the old contents plus
            // the skipped keys, oldest evicted beyond the capacity, entries
            // behind the window purged
            (advance_case(old(self)@, header@) && r is Ok) ==> final(self)@.skipped == purged(
                merged_cache(
                    old(self)@.skipped,
                    skipped_chain_keys(
                        old(self)@.recv_chain,
                        old(self)@.recv_gen,
                        old(self)@.recv_count,
                        hdr_ctr(header@),
                    ),
                ),
                old(self)@.recv_gen,
                hdr_ctr(header@),
            ),
            // the keys a jump ahead skipped over are cached afterwards, as
            // long as the cache had room and the counter is inside the window
            forall|j: u32|
                (advance_case(old(self)@, header@) && r is Ok && old(self)@.skipped.len() + (
                hdr_ctr(header@) - old(self)@.recv_count - 1) <= MAX_SKIPPED && old(self)@.recv_count
                    < j < hdr_ctr(header@) && j + SKIP_WINDOW >= hdr_ctr(header@) && cache_find(
                    old(self)@.skipped,
                    old(self)@.recv_gen,
                    j,
                ) is None) ==> cache_find(final(self)@.skipped, old(self)@.recv_gen, j) == Some(
                    msg_key_of(
                        chain_after(old(self)@.recv_chain, old(self)@.recv_count as int, j as int),
                    ),
                ),
            // a late message whose key is still cached opens under that key
            forall|pm: Seq<u8>|
                (skip_case(old(self)@, header@) && pm.len() <= 0x1000_0000 && ciphertext@
                    == xchacha_seal(
                    cache_find(old(self)@.skipped, old(self)@.recv_gen, hdr_ctr(header@)).unwrap(),
                    zero_nonce(),
                    pm,
                )) ==> (r matches Ok(p) && p@ == pm),
            (skip_case(old(self)@, header@) && r is Ok) ==> (final(self)@.recv_chain == old(self)@.recv_chain && final(self)@.recv_count == old(self)@.recv_count
                && final(self)@.recv_gen == old(self)@.recv_gen && final(self)@.peer_ratchet_public == old(self)@.peer_ratchet_public && final(self)@.root_key
                == old(self)@.root_key),
            skip_case(old(self)@, header@) ==> (r matches Ok(p) ==> ciphertext@ == xchacha_seal(
                cache_find(old(self)@.skipped, old(self)@.recv_gen, hdr_ctr(header@)).unwrap(),
                zero_nonce(),
                p@,
            )),
            // a late message whose key is no longer cached fails
            (header@.len() == 36 && hdr_key(header@) == old(self)@.peer_ratchet_public && hdr_ctr(
                header@,
            ) <= old(self)@.recv_count && cache_find(
                old(self)@.skipped,
                old(self)@.recv_gen,
                hdr_ctr(header@),
            ) is None) ==> r is Err,
            // a turnover that succeeds re-keys from a fresh local pair and the
            // new ratchet key: the root becomes a hash of the old root and the
            // fresh exchange, the receive chain restarts from it, and the
            // plaintext authenticated under that chain's message key
            (header@.len() == 36 && hdr_key(header@) != old(self)@.peer_ratchet_public) ==> (
            r matches Ok(p) ==> (final(self)@.peer_ratchet_public == hdr_key(header@) && final(self)@.recv_gen == old(self)@.recv_gen + 1 && final(self)@.recv_count == hdr_ctr(header@)
                && final(self)@.recv_chain == chain_after(
                initial_chain(final(self)@.root_key, hdr_key(header@)),
                0,
                hdr_ctr(header@) as int,
            ) && ciphertext@ == xchacha_seal(
                msg_key_of(final(self)@.recv_chain),
                zero_nonce(),
                p@,
            ) && (exists|fresh: Seq<u8>|
                #![trigger x25519_fn(fresh, basepoint())]
                (fresh.len() == 32 && !all_zero(x25519_fn(fresh, hdr_key(header@))) && final(self)@.root_key == sha256_of(
                    old(self)@.root_key + x25519_fn(fresh, hdr_key(header@)),
                ) && final(self)@.ratchet_public == x25519_fn(fresh, basepoint()))))),
    {
        if header.len() != 36 {
            return Err(RatchetError::DecryptionFailed);
        }
        let hdr_pub = slice_subrange(header, 0, 32);
        let ctr = u32_from_le_bytes(slice_subrange(header, 32, 36));
        let same_key = constant_time_eq(hdr_pub, self.peer_ratchet_public.as_slice());
        let zn = zero_nonce_bytes();
        if same_key {
            if ctr > self.recv_count {
                // current chain, possibly ahead: derive forward and open
                if ctr - self.recv_count > MAX_SKIP_AHEAD {
                    return Err(RatchetError::DecryptionFailed);
                }
                let (new_chain, fresh) = Self::derive_forward(
                    self.recv_chain.as_slice(),
                    self.recv_count,
                    ctr,
                    self.recv_gen,
                );
                let mk = msg_key_bytes(new_chain.as_slice());
                match xchacha_decrypt(mk.as_slice(), zn.as_slice(), ciphertext) {
                    Some(pt) => {
                        let ghost fv = fresh@.map_values(|k: SkippedKey| k@);
                        self.recv_chain = new_chain;
                        self.recv_count = ctr;
                        self.merge_skipped(fresh);
                        let ghost s1 = self@.skipped;
                        self.purge_window();
                        proof {
                            let g = old(self)@.recv_gen;
                            let from = old(self)@.recv_count;
                            assert(fv =~= skipped_chain_keys(
                                old(self)@.recv_chain,
                                g,
                                from,
                                ctr,
                            ));
                            assert(self@.skipped == purged(s1, g, ctr));
                            assert forall|j: u32|
                                (old(self)@.skipped.len() + (ctr - from - 1) <= MAX_SKIPPED && from
                                    < j < ctr && j + SKIP_WINDOW >= ctr && cache_find(
                                    old(self)@.skipped,
                                    g,
                                    j,
                                ) is None) implies cache_find(self@.skipped, g, j) == Some(
                                msg_key_of(
                                    chain_after(old(self)@.recv_chain, from as int, j as int),
                                ),
                            ) by {
                                assert(old(self)@.skipped.len() + fv.len() <= MAX_SKIPPED);
                                assert(s1 =~= old(self)@.skipped + fv);
                                lemma_cache_find_none_to_all(old(self)@.skipped, g, j);
                                lemma_cache_find_append(old(self)@.skipped, fv, g, j);
                                let idx = j - from - 1;
                                assert(fv[idx as int] == fresh@[idx as int]@);
                                assert(fv[idx as int].gen == g && fv[idx as int].ctr == j);
                                assert forall|jj: int|
                                    0 <= jj < idx implies !((#[trigger] fv[jj]).gen == g
                                    && fv[jj].ctr == j) by {
                                    assert(fv[jj] == fresh@[jj]@);
                                }
                                lemma_cache_find_at(fv, g, j, idx as int);
                                lemma_cache_find_purged(s1, g, ctr, g, j);
                                assert(self@.skipped == purged(s1, g, ctr));
                            }
                        }
                        Ok(pt)
                    },
                    None => Err(RatchetError::DecryptionFailed),
                }
            } else {
                // late message: only a cached skipped key can open it
                let n = self.skipped.len();
                let mut i: usize = 0;
                while i < n
                    invariant
                        0 <= i <= n,
                        n == self.skipped@.len(),
                        self@.wf(),
                        self@ == old(self)@,
                        forall|j: int|
                            0 <= j < i ==> !((#[trigger] self@.skipped[j]).gen == self@.recv_gen
                                && self@.skipped[j].ctr == hdr_ctr(header@)),
                    decreases n - i,
                {
                    if self.skipped[i].gen == self.recv_gen && self.skipped[i].ctr == ctr {
                        let key = slice_to_vec(self.skipped[i].key.as_slice());
                        proof {
                            assert(self@.skipped[i as int] == self.skipped@[i as int]@);
                            assert(self@.skipped[i as int].key.len() == 32);
                            assert(ctr == hdr_ctr(header@));
                            lemma_cache_find_at(
                                self@.skipped,
                                self@.recv_gen,
                                hdr_ctr(header@),
                                i as int,
                            );
                        }
                        match xchacha_decrypt(key.as_slice(), zn.as_slice(), ciphertext) {
                            Some(pt) => {
                                let ghost pre = self@.skipped;
                                self.skipped.remove(i);
                                proof {
                                    assert(self@.skipped =~= pre.remove(i as int));
                                    assert forall|j: int|
                                        0 <= j < self@.skipped.len() implies (#[trigger] self@.skipped[j]).key.len()
                                        == 32 by {
                                        if j < i {
                                            assert(self@.skipped[j] == pre[j]);
                                        } else {
                                            assert(self@.skipped[j] == pre[j + 1]);
                                        }
                                    }
                                    assert(self@ =~= (RatchetView { skipped: self@.skipped, ..old(self)@ }));
                                }
                                return Ok(pt);
                            },
                            None => {
                                return Err(RatchetError::DecryptionFailed);
                            },
                        }
                    }
                    i = i + 1;
                }
                proof {
                    lemma_cache_find_none(self@.skipped, self@.recv_gen, hdr_ctr(header@));
                }
                Err(RatchetError::DecryptionFailed)
            }
        } else {
            // ratchet turnover: re-key from a fresh pair and the new peer key
            if self.recv_gen == u32::MAX || ctr == 0 || ctr > MAX_SKIP_AHEAD {
                return Err(RatchetError::DecryptionFailed);
            }
            let fresh_secret = random_bytes(32);
            let bp = basepoint_bytes();
            let fresh_public = x25519_mul(fresh_secret.as_slice(), bp.as_slice());
            let shared = x25519_mul(fresh_secret.as_slice(), hdr_pub);
            if is_all_zero(shared.as_slice()) {
                return Err(RatchetError::DecryptionFailed);
            }
            let mut ri = slice_to_vec(self.root_key.as_slice());
            ri.extend_from_slice(shared.as_slice());
            let new_root = sha256(ri.as_slice());
            let mut ci = slice_to_vec(new_root.as_slice());
            ci.extend_from_slice(hdr_pub);
            let chain0 = sha256(ci.as_slice());
            let (new_chain, fresh_keys) = if ctr == 1 {
                (chain_step_bytes(chain0.as_slice(), 1), Vec::new())
            } else {
                Self::derive_forward(chain0.as_slice(), 0, ctr, self.recv_gen + 1)
            };
            let mk = msg_key_bytes(new_chain.as_slice());
            match xchacha_decrypt(mk.as_slice(), zn.as_slice(), ciphertext) {
                Some(pt) => {
                    proof {
                        assert(hdr_pub@ == hdr_key(header@));
                        assert(ri@ =~= old(self)@.root_key + shared@);
                        assert(ci@ =~= new_root@ + hdr_pub@);
                        assert(chain0@ == initial_chain(new_root@, hdr_key(header@)));
                        if ctr == 1 {
                            assert(chain_after(chain0@, 0, 0) == chain0@);
                            assert(chain_after(chain0@, 0, 1) == chain_step(chain0@, 1u32));
                        }
                        assert(new_chain@ == chain_after(
                            initial_chain(new_root@, hdr_key(header@)),
                            0,
                            ctr as int,
                        ));
                    }
                    self.root_key = new_root;
                    self.ratchet_secret = fresh_secret;
                    self.ratchet_public = fresh_public;
                    self.peer_ratchet_public = slice_to_vec(hdr_pub);
                    self.recv_gen = self.recv_gen + 1;
                    self.recv_count = ctr;
                    self.recv_chain = new_chain;
                    self.merge_skipped(fresh_keys);
                    self.purge_window();
                    proof {
                        assert(fresh_secret@.len() == 32 && !all_zero(
                            x25519_fn(fresh_secret@, hdr_key(header@)),
                        ) && self@.root_key == sha256_of(
                            old(self)@.root_key + x25519_fn(fresh_secret@, hdr_key(header@)),
                        ) && self@.ratchet_public == x25519_fn(fresh_secret@, basepoint()));
                    }
                    Ok(pt)
                },
                None => Err(RatchetError::DecryptionFailed),
            }
        }
    }
}

} // verus!
