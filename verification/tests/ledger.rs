//! Tests of the chain itself: genesis shape, hash links, sequence numbers and
//! hash recomputation.

use votechain::block::{calculate_hash, Block};
use votechain::blockchain::Blockchain;

fn options(v: &[&str]) -> Vec<String> {
    v.iter().map(|s| s.to_string()).collect()
}

#[test]
fn genesis_initialized_once() {
    let st = Blockchain::new();
    assert_eq!(st.chain.len(), 1);
    let g = &st.chain[0];
    assert_eq!(g.index, 0);
    assert_eq!(g.voter_id, "");
    assert_eq!(g.election_id, "");
    assert_eq!(g.vote_option_id, "");
    assert_eq!(g.previous_hash, "0");
}

#[test]
fn chain_links_and_sequence_numbers() {
    let mut st = Blockchain::new();
    st.create_election("E1".to_string(), options(&["a", "b"]), "alice".to_string())
        .unwrap();
    st.add_vote_operation("v1".to_string(), "E1".to_string(), "a".to_string())
        .unwrap();
    st.add_vote_operation("v2".to_string(), "E1".to_string(), "b".to_string())
        .unwrap();
    st.add_vote_operation("v3".to_string(), "E1".to_string(), "a".to_string())
        .unwrap();
    assert_eq!(st.chain.len(), 4);
    for i in 0..st.chain.len() {
        assert_eq!(st.chain[i].index, i as u64);
        if i > 0 {
            assert_eq!(st.chain[i].previous_hash, st.chain[i - 1].hash);
        }
    }
    assert!(st.is_chain_valid());
}

#[test]
fn hash_recomputation_reproduces_stored_value() {
    let b = Block::new(
        7,
        "voter".to_string(),
        "election".to_string(),
        "option".to_string(),
        "prev".to_string(),
    );
    let recomputed = calculate_hash(
        b.index,
        b.timestamp,
        &b.voter_id,
        &b.election_id,
        &b.vote_option_id,
        &b.previous_hash,
    );
    assert_eq!(recomputed, b.hash);
    assert!(b.verify_hash());
}

#[test]
fn hash_is_deterministic_and_field_sensitive() {
    let h1 = calculate_hash(1, 2, "v", "e", "o", "p");
    let h2 = calculate_hash(1, 2, "v", "e", "o", "p");
    assert_eq!(h1, h2);
    // a different field gives a different digest
    let h3 = calculate_hash(1, 2, "v", "e", "o", "q");
    assert_ne!(h1, h3);
    // the digest is 64 hex characters, not an echo of any argument
    assert_eq!(h1.len(), 64);
    assert!(h1.chars().all(|c| c.is_ascii_hexdigit()));
    assert_ne!(h1, "p");
}

#[test]
fn corrupted_entry_is_detected() {
    let mut st = Blockchain::new();
    st.create_election("E1".to_string(), options(&["a"]), "alice".to_string())
        .unwrap();
    st.add_vote_operation("v1".to_string(), "E1".to_string(), "a".to_string())
        .unwrap();
    assert!(st.is_chain_valid());
    st.chain[1].vote_option_id = "tampered".to_string();
    assert!(!st.is_chain_valid());
}
