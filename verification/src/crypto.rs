//! Trusted wrappers around the cryptographic primitives the message layer is
//! built on: X25519, HKDF-SHA256, HMAC-SHA256, XChaCha20-Poly1305, the OS
//! random source, and the system clock. Each wrapper's contract states what
//! the underlying crate documents; everything that reasons about the results
//! lives in verified code.

use vstd::prelude::*;
use chacha20poly1305::aead::Aead;
use rand_core::RngCore;

verus! {

/// The X25519 function: clamped scalar multiplication of a point (`u`) by a
/// scalar (`k`), both in 32-byte little-endian encoding. A function of its two
/// arguments alone.
pub uninterp spec fn x25519_fn(k: Seq<u8>, u: Seq<u8>) -> Seq<u8>;

/// The canonical X25519 base point encoding: the byte 9 followed by 31 zero
/// bytes.
pub open spec fn basepoint() -> Seq<u8> {
    seq![9u8] + Seq::new(31, |i: int| 0u8)
}

/// The base point as bytes, for deriving a public key from a secret.
pub fn basepoint_bytes() -> (r: Vec<u8>)
    ensures
        r@ == basepoint(),
{
    let mut v: Vec<u8> = Vec::new();
    v.push(9u8);
    let mut i: usize = 0;
    while i < 31
        invariant
            0 <= i <= 31,
            v@.len() == i + 1,
            v@[0] == 9u8,
            forall|j: int| 1 <= j <= i ==> v@[j] == 0u8,
        decreases 31 - i,
    {
        v.push(0u8);
        i = i + 1;
    }
    proof {
        assert(v@ =~= basepoint());
    }
    v
}

/// Relies on `x25519_dalek::x25519`: deterministic clamped scalar
/// multiplication, so the result is a function of `k` and `u` alone. The
/// second clause states the Diffie-Hellman agreement the crate documents:
/// when `u` is the public key of some secret `s2`, this result equals what
/// `s2` computes against `k`'s public key.
#[verifier::external_body]
pub(crate) fn x25519_mul(k: &[u8], u: &[u8]) -> (r: Vec<u8>)
    requires
        k@.len() == 32,
        u@.len() == 32,
    ensures
        r@.len() == 32,
        r@ == x25519_fn(k@, u@),
        forall|s2: Seq<u8>|
            u@ == x25519_fn(s2, basepoint()) ==> r@ == x25519_fn(
                s2,
                x25519_fn(k@, basepoint()),
            ),
{
    let k32: [u8; 32] = k.try_into().expect("32-byte scalar");
    let u32b: [u8; 32] = u.try_into().expect("32-byte point");
    x25519_dalek::x25519(k32, u32b).to_vec()
}

/// Relies on `rand_core::OsRng` (`fill_bytes`): `n` bytes from the operating
/// system's secure random source. Nothing is assumed of their values.
#[verifier::external_body]
pub(crate) fn random_bytes(n: usize) -> (r: Vec<u8>)
    ensures
        r@.len() == n,
{
    let mut buf = vec![0u8; n];
    rand_core::OsRng.fill_bytes(&mut buf);
    buf
}

/// The HKDF-SHA256 output key material for an input keying material, an info
/// string and an output length, as a name: a function of the three arguments
/// alone.
pub uninterp spec fn hkdf_okm(ikm: Seq<u8>, info: Seq<u8>, n: nat) -> Seq<u8>;

/// Relies on `hkdf::Hkdf::<Sha256>` (`new` with no salt, then `expand`): the
/// output key material is a function of `ikm`, `info` and the length alone;
/// `expand` accepts any length up to 255 hash blocks (8160 bytes).
#[verifier::external_body]
pub(crate) fn hkdf_sha256(ikm: &[u8], info: &[u8], n: usize) -> (r: Vec<u8>)
    requires
        n <= 8160,
    ensures
        r@.len() == n,
        r@ == hkdf_okm(ikm@, info@, n as nat),
{
    let hk = hkdf::Hkdf::<sha2::Sha256>::new(None, ikm);
    let mut okm = vec![0u8; n];
    hk.expand(info, &mut okm).expect("output length within the HKDF bound");
    okm
}

/// The HMAC-SHA256 tag for a key and a message, as a name: a function of the
/// two arguments alone.
pub uninterp spec fn hmac_sha256_of(key: Seq<u8>, msg: Seq<u8>) -> Seq<u8>;

/// Relies on `hmac::Hmac::<Sha256>`: a 32-byte tag that is a function of the
/// key and the message alone; HMAC accepts keys of any length.
#[verifier::external_body]
pub(crate) fn hmac_sha256(key: &[u8], msg: &[u8]) -> (r: Vec<u8>)
    ensures
        r@.len() == 32,
        r@ == hmac_sha256_of(key@, msg@),
{
    let mut mac = <hmac::Hmac<sha2::Sha256> as hmac::KeyInit>::new_from_slice(key).expect(
        "HMAC accepts keys of any length",
    );
    hmac::Mac::update(&mut mac, msg);
    hmac::Mac::finalize(mac).into_bytes().to_vec()
}

/// The XChaCha20-Poly1305 sealing function for a 32-byte key, a 24-byte nonce
/// and a plaintext, with no associated data: ciphertext with the 16-byte
/// Poly1305 tag appended. A function of its three arguments alone.
pub uninterp spec fn xchacha_seal(key: Seq<u8>, nonce: Seq<u8>, plaintext: Seq<u8>) -> Seq<u8>;

/// Relies on `chacha20poly1305::XChaCha20Poly1305` (`Aead::encrypt`, no
/// associated data): deterministic given key, nonce and plaintext; the result
/// is the ciphertext with the 16-byte tag appended; encryption cannot fail
/// below the cipher's length ceiling.
#[verifier::external_body]
pub(crate) fn xchacha_encrypt(key: &[u8], nonce: &[u8], plaintext: &[u8]) -> (r: Vec<u8>)
    requires
        key@.len() == 32,
        nonce@.len() == 24,
        plaintext@.len() <= 0x1000_0000,
    ensures
        r@.len() == plaintext@.len() + 16,
        r@ == xchacha_seal(key@, nonce@, plaintext@),
{
    let cipher = <chacha20poly1305::XChaCha20Poly1305 as chacha20poly1305::KeyInit>::new_from_slice(
        key,
    ).expect("32-byte key");
    let n = chacha20poly1305::XNonce::try_from(nonce).expect("24-byte nonce");
    cipher.encrypt(&n, plaintext).expect("plaintext within the cipher's length ceiling")
}

/// Relies on `chacha20poly1305::XChaCha20Poly1305` (`Aead::decrypt`, no
/// associated data): decryption recovers exactly the plaintexts this cipher
/// sealed under the same key and nonce, and fails on everything the Poly1305
/// tag does not authenticate.
#[verifier::external_body]
pub(crate) fn xchacha_decrypt(key: &[u8], nonce: &[u8], sealed: &[u8]) -> (r: Option<Vec<u8>>)
    requires
        key@.len() == 32,
        nonce@.len() == 24,
    ensures
        r is Some ==> sealed@ == xchacha_seal(key@, nonce@, r.unwrap()@) && r.unwrap()@.len() + 16
            == sealed@.len(),
        forall|p: Seq<u8>|
            (p.len() <= 0x1000_0000 && sealed@ == xchacha_seal(key@, nonce@, p))
                ==> r is Some && r.unwrap()@ == p,
{
    let cipher = <chacha20poly1305::XChaCha20Poly1305 as chacha20poly1305::KeyInit>::new_from_slice(
        key,
    ).expect("32-byte key");
    let n = chacha20poly1305::XNonce::try_from(nonce).expect("24-byte nonce");
    cipher.decrypt(&n, sealed).ok()
}

/// Relies on `std::time::SystemTime::now`; the duration arithmetic only
/// converts the reading to whole milliseconds since the epoch. Nothing is
/// assumed of the value.
#[verifier::external_body]
pub(crate) fn now_millis() -> u64 {
    match std::time::SystemTime::now().duration_since(std::time::UNIX_EPOCH) {
        Ok(d) => d.as_millis() as u64,
        Err(_) => 0,
    }
}

} // verus!
