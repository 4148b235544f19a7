//! Bounded in-process relay queue: FIFO order, drop-oldest on overflow, and
//! the identity records.

use phantomchat_core::envelope::Envelope;
use phantomchat_core::relay::{InMemoryRelay, NostrRelay};

fn envelope_with_ts(ts: u64) -> Envelope {
    Envelope {
        ver: 1,
        ts,
        ttl: 60,
        epk: vec![0; 32],
        tag: vec![0; 32],
        pow_nonce: 0,
        nonce: vec![0; 24],
        ciphertext: vec![],
        mac: vec![0; 16],
    }
}

#[test]
fn queue_is_first_in_first_out() {
    let mut relay = InMemoryRelay::new("local");
    assert_eq!(relay.id(), "local");
    assert_eq!(relay.len(), 0);
    assert!(relay.take_next().is_none());
    relay.publish(envelope_with_ts(1));
    relay.publish(envelope_with_ts(2));
    assert_eq!(relay.len(), 2);
    assert_eq!(relay.take_next().unwrap().ts, 1);
    assert_eq!(relay.take_next().unwrap().ts, 2);
    assert!(relay.take_next().is_none());
}

#[test]
fn full_queue_drops_the_oldest() {
    let mut relay = InMemoryRelay::with_capacity("tiny", 2);
    relay.publish(envelope_with_ts(1));
    relay.publish(envelope_with_ts(2));
    relay.publish(envelope_with_ts(3));
    assert_eq!(relay.len(), 2);
    assert_eq!(relay.take_next().unwrap().ts, 2);
    assert_eq!(relay.take_next().unwrap().ts, 3);
}

#[test]
fn nostr_relay_keeps_its_url() {
    let relay = NostrRelay::new("wss://relay.example");
    assert_eq!(relay.id(), "wss://relay.example");
    assert_eq!(relay.url(), "wss://relay.example");
}
