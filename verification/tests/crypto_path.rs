//! End-to-end envelope tests: confidentiality, the recipient tag, failure on
//! the wrong key, and the primitive wrappers against known answers.

use phantomchat_core::envelope::Envelope;
use phantomchat_core::errors::CoreError;
use phantomchat_core::keys::{IdentityKey, SpendKey};
use phantomchat_core::util::{leading_zero_bits, sha256, to_hex};

#[test]
fn sha256_known_answer() {
    let digest = sha256(b"abc");
    assert_eq!(
        to_hex(&digest),
        "ba7816bf8f01cfea414140de5dae2223b00361a396177a9cb410ff61f20015ad"
    );
}

#[test]
fn to_hex_encodes_nibbles() {
    assert_eq!(to_hex(&[]), "");
    assert_eq!(to_hex(&[0x00, 0xff, 0x1a]), "00ff1a");
}

#[test]
fn leading_zero_bits_counts_from_the_front() {
    assert_eq!(leading_zero_bits(&[]), 0);
    assert_eq!(leading_zero_bits(&[0x80]), 0);
    assert_eq!(leading_zero_bits(&[0x01]), 7);
    assert_eq!(leading_zero_bits(&[0x00, 0x80]), 8);
    assert_eq!(leading_zero_bits(&[0x00, 0x00]), 16);
    assert_eq!(leading_zero_bits(&[0x00, 0x10, 0x00]), 11);
}

#[test]
fn identity_key_binds_public_to_private() {
    let id = IdentityKey::generate();
    assert_eq!(id.public, id.private);
    assert_eq!(id.private.len(), 32);
}

#[test]
fn ecdh_agrees_between_peers() {
    let a = SpendKey::generate();
    let b = SpendKey::generate();
    let ab = a.ecdh(&b.public).expect("contributory");
    let ba = b.ecdh(&a.public).expect("contributory");
    assert_eq!(ab, ba);
    assert_ne!(ab, a.public);
    assert_ne!(ab, b.public);
}

#[test]
fn ecdh_rejects_low_order_point() {
    let a = SpendKey::generate();
    let r = a.ecdh(&[0u8; 32]);
    assert_eq!(r.unwrap_err(), CoreError::CryptoFailure);
}

#[test]
fn construct_rejects_low_order_recipient() {
    let r = Envelope::new(&[0u8; 32], 1, 0, vec![], b"x".to_vec(), 60, 0);
    assert_eq!(r.unwrap_err(), CoreError::CryptoFailure);
}

#[test]
fn alice_to_bob_scenario() {
    let _alice = SpendKey::generate();
    let bob = SpendKey::generate();
    let env = Envelope::new(&bob.public, 42, 0, vec![0], b"hi".to_vec(), 60, 8).expect("sealed");
    assert_eq!(env.ver, 1);
    assert_eq!(env.ttl, 60);
    let bytes = env.to_bytes();
    assert!(bytes.len() >= 1 + 8 + 4 + 32 + 4 + 32 + 8 + 24 + 4 + 16);
    let payload = env.decrypt(&bob).expect("addressed to bob");
    assert_eq!(payload.msg_id, 42);
    assert_eq!(payload.sender_fp, 0);
    assert_eq!(payload.ratchet_header, vec![0u8]);
    assert_eq!(payload.body, b"hi".to_vec());
}

#[test]
fn confidentiality_round_trip_over_the_wire() {
    let bob = SpendKey::generate();
    let env = Envelope::new(
        &bob.public,
        0xfeedface,
        7,
        vec![1, 2, 3, 4],
        b"stealth delivery".to_vec(),
        3600,
        4,
    )
    .expect("sealed");
    let received = Envelope::from_bytes(&env.to_bytes()).expect("parses");
    assert_eq!(received, env);
    let payload = received.decrypt(&bob).expect("addressed to bob");
    assert_eq!(payload.msg_id, 0xfeedface);
    assert_eq!(payload.sender_fp, 7);
    assert_eq!(payload.ratchet_header, vec![1, 2, 3, 4]);
    assert_eq!(payload.body, b"stealth delivery".to_vec());
}

#[test]
fn non_addressee_cannot_decrypt() {
    let s1 = SpendKey::generate();
    let s2 = SpendKey::generate();
    assert_ne!(s1.public, s2.public);
    let env = Envelope::new(&s1.public, 5, 0, vec![], b"secret".to_vec(), 60, 0).expect("sealed");
    let r = env.decrypt(&s2);
    match r {
        Ok(_) => panic!("an envelope for s1 must not open under s2"),
        Err(e) => assert!(
            e == CoreError::AuthenticationFailed || e == CoreError::Malformed
                || e == CoreError::CryptoFailure
        ),
    }
}

#[test]
fn recipient_tag_matches_only_the_true_recipient_and_id() {
    let bob = SpendKey::generate();
    let eve = SpendKey::generate();
    let env = Envelope::new(&bob.public, 42, 0, vec![], b"hi".to_vec(), 60, 0).expect("sealed");
    let payload = env.decrypt(&bob).expect("addressed to bob");
    assert!(env.verify_recipient(&bob, payload.msg_id));
    assert!(!env.verify_recipient(&bob, payload.msg_id + 1));
    assert!(!env.verify_recipient(&eve, payload.msg_id));
}

#[test]
fn tag_is_a_full_hmac_output() {
    let bob = SpendKey::generate();
    let env = Envelope::new(&bob.public, 1, 0, vec![], vec![], 60, 0).expect("sealed");
    assert_eq!(env.tag.len(), 32);
    assert_eq!(env.epk.len(), 32);
    assert_eq!(env.nonce.len(), 24);
    assert_eq!(env.mac.len(), 16);
}

#[test]
fn tampered_ciphertext_fails_authentication() {
    let bob = SpendKey::generate();
    let env = Envelope::new(&bob.public, 9, 0, vec![], b"payload".to_vec(), 60, 0).expect("sealed");
    let mut tampered = env.clone();
    tampered.ciphertext[0] ^= 1;
    assert_eq!(tampered.decrypt(&bob).unwrap_err(), CoreError::AuthenticationFailed);
    let mut cut_mac = env.clone();
    cut_mac.mac[0] ^= 1;
    assert_eq!(cut_mac.decrypt(&bob).unwrap_err(), CoreError::AuthenticationFailed);
}

#[test]
fn envelope_pow_verifies_at_its_difficulty() {
    let bob = SpendKey::generate();
    let env = Envelope::new(&bob.public, 3, 0, vec![], b"work".to_vec(), 60, 8).expect("sealed");
    assert!(env.verify_pow(8).is_ok());
    assert!(env.verify_pow(0).is_ok());
    assert_eq!(env.verify_pow(60).unwrap_err(), CoreError::ProofOfWorkInvalid);
}

#[test]
fn bounded_construction_times_out() {
    let bob = SpendKey::generate();
    let r = Envelope::new_bounded(&bob.public, 1, 0, vec![], b"x".to_vec(), 60, 64, 2);
    assert_eq!(r.unwrap_err(), CoreError::Timeout);
    let ok = Envelope::new_bounded(&bob.public, 1, 0, vec![], b"x".to_vec(), 60, 0, 1);
    assert!(ok.is_ok());
}

#[test]
fn decrypt_rejects_malformed_field_sizes() {
    let bob = SpendKey::generate();
    let env = Envelope::new(&bob.public, 9, 0, vec![], b"x".to_vec(), 60, 0).expect("sealed");
    let mut short_epk = env.clone();
    short_epk.epk.pop();
    assert_eq!(short_epk.decrypt(&bob).unwrap_err(), CoreError::Malformed);
    assert!(!short_epk.verify_recipient(&bob, 9));
    let mut short_nonce = env.clone();
    short_nonce.nonce.pop();
    assert_eq!(short_nonce.decrypt(&bob).unwrap_err(), CoreError::Malformed);
}
