//! Ratchet session tests: in-order delivery, reordering within the
//! skipped-key window, replay, and expiry beyond the window.

use phantomchat_core::ratchet::{RatchetError, RatchetState};

/// Two sessions seeded with one root key and each other's ratchet public
/// keys, so each side's send chain mirrors the other's receive chain.
fn handshake() -> (RatchetState, RatchetState) {
    let root = vec![7u8; 32];
    let a_secret = vec![1u8; 32];
    let b_secret = vec![2u8; 32];
    let a_pub = RatchetState::new_with_ratchet_secret(root.clone(), vec![0u8; 32], a_secret.clone())
        .ratchet_public();
    let b_pub = RatchetState::new_with_ratchet_secret(root.clone(), vec![0u8; 32], b_secret.clone())
        .ratchet_public();
    let alice = RatchetState::new_with_ratchet_secret(root.clone(), b_pub, a_secret);
    let bob = RatchetState::new_with_ratchet_secret(root, a_pub, b_secret);
    (alice, bob)
}

#[test]
fn in_order_sends_reproduce_every_plaintext() {
    let (mut alice, mut bob) = handshake();
    let messages: Vec<Vec<u8>> = vec![
        b"first".to_vec(),
        b"second".to_vec(),
        b"third".to_vec(),
        vec![],
        vec![0u8; 100],
    ];
    let mut wire: Vec<(Vec<u8>, Vec<u8>)> = Vec::new();
    for m in &messages {
        wire.push(alice.encrypt(m));
    }
    for (i, (ct, hdr)) in wire.iter().enumerate() {
        let pt = bob.decrypt(hdr, ct).expect("in-order message opens");
        assert_eq!(&pt, &messages[i]);
    }
}

#[test]
fn both_directions_work_independently() {
    let (mut alice, mut bob) = handshake();
    let (ct_a, hdr_a) = alice.encrypt(b"from alice");
    let (ct_b, hdr_b) = bob.encrypt(b"from bob");
    assert_eq!(bob.decrypt(&hdr_a, &ct_a).expect("opens"), b"from alice".to_vec());
    assert_eq!(alice.decrypt(&hdr_b, &ct_b).expect("opens"), b"from bob".to_vec());
}

#[test]
fn reordered_neighbours_both_decrypt() {
    let (mut alice, mut bob) = handshake();
    let (ct1, hdr1) = alice.encrypt(b"one");
    let (ct2, hdr2) = alice.encrypt(b"two");
    assert_eq!(bob.decrypt(&hdr2, &ct2).expect("ahead within window"), b"two".to_vec());
    assert_eq!(bob.decrypt(&hdr1, &ct1).expect("late but cached"), b"one".to_vec());
}

#[test]
fn replay_of_a_consumed_message_fails() {
    let (mut alice, mut bob) = handshake();
    let (ct1, hdr1) = alice.encrypt(b"one");
    let (ct2, hdr2) = alice.encrypt(b"two");
    assert!(bob.decrypt(&hdr2, &ct2).is_ok());
    assert!(bob.decrypt(&hdr1, &ct1).is_ok());
    assert_eq!(bob.decrypt(&hdr1, &ct1).unwrap_err(), RatchetError::DecryptionFailed);
}

#[test]
fn message_older_than_the_window_fails() {
    let (mut alice, mut bob) = handshake();
    let (ct1, hdr1) = alice.encrypt(b"early");
    let (ct2, hdr2) = alice.encrypt(b"anchor");
    assert!(bob.decrypt(&hdr2, &ct2).is_ok());
    // advance the sender far enough that the skipped key for the first
    // message falls out of the window once the receiver catches up
    let mut last = (Vec::new(), Vec::new());
    for _ in 0..256 {
        last = alice.encrypt(b"filler");
    }
    assert!(bob.decrypt(&last.1, &last.0).is_ok());
    assert_eq!(bob.decrypt(&hdr1, &ct1).unwrap_err(), RatchetError::DecryptionFailed);
}

#[test]
fn jump_beyond_the_skip_bound_fails() {
    let (mut alice, mut bob) = handshake();
    let mut last = (Vec::new(), Vec::new());
    for _ in 0..257 {
        last = alice.encrypt(b"burst");
    }
    assert_eq!(bob.decrypt(&last.1, &last.0).unwrap_err(), RatchetError::DecryptionFailed);
}

#[test]
fn tampered_ratchet_message_fails() {
    let (mut alice, mut bob) = handshake();
    let (mut ct, hdr) = alice.encrypt(b"integrity");
    ct[0] ^= 1;
    assert_eq!(bob.decrypt(&hdr, &ct).unwrap_err(), RatchetError::DecryptionFailed);
}

#[test]
fn garbage_header_fails_and_state_survives() {
    let (mut alice, mut bob) = handshake();
    assert_eq!(bob.decrypt(b"short", b"ct").unwrap_err(), RatchetError::DecryptionFailed);
    let (ct, hdr) = alice.encrypt(b"still fine");
    assert_eq!(bob.decrypt(&hdr, &ct).expect("session intact"), b"still fine".to_vec());
}

#[test]
fn ciphertexts_differ_across_the_chain() {
    let (mut alice, _bob) = handshake();
    let (ct1, _) = alice.encrypt(b"same plaintext");
    let (ct2, _) = alice.encrypt(b"same plaintext");
    assert_ne!(ct1, ct2);
}

#[test]
fn random_sessions_draw_distinct_ratchet_keys() {
    let a = RatchetState::new(vec![3u8; 32], vec![9u8; 32]);
    let b = RatchetState::new(vec![3u8; 32], vec![9u8; 32]);
    assert_eq!(a.ratchet_public().len(), 32);
    assert_ne!(a.ratchet_public(), b.ratchet_public());
}
