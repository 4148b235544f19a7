//! Proof-of-work gate: a computed nonce verifies at its difficulty, a harder
//! threshold rejects it, and the bounded search reports exhaustion.

use phantomchat_core::pow::Hashcash;

#[test]
fn computed_nonce_verifies_at_each_difficulty() {
    let header = b"pow gate header";
    for d in 0..=10u32 {
        let gate = Hashcash::new(d);
        let nonce = gate.compute_nonce(header);
        assert!(gate.verify(header, nonce), "difficulty {} must verify", d);
    }
}

#[test]
fn harder_threshold_rejects_a_cheaper_nonce() {
    let header = b"pow gate header";
    let mut rejected = 0u32;
    for d in 0..=10u32 {
        let nonce = Hashcash::new(d).compute_nonce(header);
        if !Hashcash::new(d + 1).verify(header, nonce) {
            rejected += 1;
        }
    }
    assert!(rejected >= 1);
}

#[test]
fn zero_difficulty_accepts_any_nonce() {
    let gate = Hashcash::new(0);
    assert!(gate.verify(b"anything", 0));
    assert!(gate.verify(b"anything", u64::MAX));
}

#[test]
fn bounded_search_reports_exhaustion() {
    let gate = Hashcash::new(16);
    assert!(gate.compute_nonce_bounded(b"data", 0).is_none());
    let found = Hashcash::new(4).compute_nonce_bounded(b"data", 1_000_000).expect("cheap search");
    assert!(Hashcash::new(4).verify(b"data", found));
}

#[test]
fn nonce_depends_on_the_header() {
    let gate = Hashcash::new(8);
    let n1 = gate.compute_nonce(b"header one");
    let n2 = gate.compute_nonce(b"header two");
    assert!(gate.verify(b"header one", n1));
    assert!(gate.verify(b"header two", n2));
}
