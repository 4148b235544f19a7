//! Wire-format tests: round trips, exact layouts, and rejection of every
//! truncated or padded buffer.

use phantomchat_core::envelope::{Envelope, Payload};
use phantomchat_core::errors::CoreError;

fn sample_envelope() -> Envelope {
    Envelope {
        ver: 1,
        ts: 0x0102030405060708,
        ttl: 60,
        epk: vec![0xaa; 32],
        tag: vec![0xbb; 32],
        pow_nonce: 0x1122334455667788,
        nonce: vec![0xcc; 24],
        ciphertext: vec![1, 2, 3, 4, 5],
        mac: vec![0xdd; 16],
    }
}

#[test]
fn payload_round_trip() {
    let p = Payload {
        msg_id: 7,
        sender_fp: 3,
        ratchet_header: vec![1, 2, 3],
        body: b"hello".to_vec(),
    };
    let bytes = p.to_bytes();
    let q = Payload::from_bytes(&bytes).expect("parses");
    assert_eq!(p, q);
}

#[test]
fn payload_exact_layout() {
    let p = Payload { msg_id: 2, sender_fp: 1, ratchet_header: vec![9], body: vec![8, 7] };
    let bytes = p.to_bytes();
    let mut expected = vec![2u8, 0, 0, 0, 0, 0, 0, 0, 0, 0, 0, 0, 0, 0, 0, 0];
    expected.extend_from_slice(&[1, 0, 0, 0]);
    expected.extend_from_slice(&[1, 0, 0, 0, 9]);
    expected.extend_from_slice(&[2, 0, 0, 0, 8, 7]);
    assert_eq!(bytes, expected);
}

#[test]
fn payload_rejects_truncation_and_padding() {
    let p = Payload { msg_id: 9, sender_fp: 0, ratchet_header: vec![], body: vec![1, 2, 3] };
    let bytes = p.to_bytes();
    for k in 0..bytes.len() {
        assert!(Payload::from_bytes(&bytes[..k]).is_none());
    }
    let mut padded = bytes.clone();
    padded.push(0);
    assert!(Payload::from_bytes(&padded).is_none());
}

#[test]
fn envelope_round_trip() {
    let e = sample_envelope();
    let bytes = e.to_bytes();
    let f = Envelope::from_bytes(&bytes).expect("parses");
    assert_eq!(e, f);
}

#[test]
fn envelope_exact_layout() {
    let e = sample_envelope();
    let bytes = e.to_bytes();
    assert_eq!(bytes.len(), 101 + 32 + 5);
    assert_eq!(bytes[0], 1);
    assert_eq!(&bytes[1..9], &[8, 7, 6, 5, 4, 3, 2, 1]);
    assert_eq!(&bytes[9..13], &[60, 0, 0, 0]);
    assert_eq!(&bytes[13..45], &[0xaa; 32][..]);
    assert_eq!(&bytes[45..49], &[32, 0, 0, 0]);
    assert_eq!(&bytes[49..81], &[0xbb; 32][..]);
    assert_eq!(&bytes[81..89], &[0x88, 0x77, 0x66, 0x55, 0x44, 0x33, 0x22, 0x11]);
    assert_eq!(&bytes[89..113], &[0xcc; 24][..]);
    assert_eq!(&bytes[113..117], &[5, 0, 0, 0]);
    assert_eq!(&bytes[117..122], &[1, 2, 3, 4, 5]);
    assert_eq!(&bytes[122..138], &[0xdd; 16][..]);
}

#[test]
fn envelope_rejects_every_truncation() {
    let e = sample_envelope();
    let bytes = e.to_bytes();
    for k in 0..bytes.len() {
        let r = Envelope::from_bytes(&bytes[..k]);
        assert_eq!(r.unwrap_err(), CoreError::Malformed);
    }
}

#[test]
fn envelope_rejects_trailing_bytes_and_bad_lengths() {
    let e = sample_envelope();
    let mut padded = e.to_bytes();
    padded.push(0);
    assert_eq!(padded.len(), 139);
    assert!(Envelope::from_bytes(&padded).is_err());

    let mut oversized_tag = e.to_bytes();
    oversized_tag[45] = 0xff;
    oversized_tag[46] = 0xff;
    assert!(Envelope::from_bytes(&oversized_tag).is_err());

    assert!(Envelope::from_bytes(&[]).is_err());
    assert!(Envelope::from_bytes(&[1u8; 100]).is_err());
}
