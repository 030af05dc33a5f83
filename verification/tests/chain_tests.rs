use nyxora::chain::BlockVerifier;
use nyxora::hybrid::HybridBlock;
use nyxora::poq::QuantumProof;
use nyxora::pos::Block;
use sha3::{Digest, Sha3_256};

fn verify_digest(
    index: u64,
    timestamp: u64,
    prev_hash: &str,
    transactions: &[String],
    proposer: &str,
) -> String {
    let mut hasher = Sha3_256::new();
    hasher.update(index.to_string());
    hasher.update(timestamp.to_string());
    hasher.update(prev_hash);
    for tx in transactions {
        hasher.update(tx);
    }
    hasher.update(proposer);
    format!("{:x}", hasher.finalize())
}

fn hybrid_digest(pos_hash: &str, proofs: &[QuantumProof]) -> String {
    let mut hasher = Sha3_256::new();
    hasher.update(pos_hash);
    for proof in proofs {
        hasher.update(&proof.proof_artifact);
    }
    format!("{:x}", hasher.finalize())
}

fn make_proof(artifact: &str) -> QuantumProof {
    QuantumProof {
        circuit_descriptor: "challenge_1".to_string(),
        measurement_results: vec![1, 0],
        proof_artifact: artifact.to_string(),
        qubit_count: 4,
        validator_address: "Qv1".to_string(),
        timestamp: 7,
    }
}

fn make_hybrid_block(index: u64, prev_hash: &str, transactions: Vec<String>) -> HybridBlock {
    let timestamp = 1700000000 + index;
    let proposer = "Qv1";
    let hash = verify_digest(index, timestamp, prev_hash, &transactions, proposer);
    let proofs = vec![make_proof("a1"), make_proof("a2")];
    let hybrid_hash = hybrid_digest(&hash, &proofs);
    HybridBlock {
        pos_block: Block {
            index,
            timestamp,
            prev_hash: prev_hash.to_string(),
            transactions,
            proposer: proposer.to_string(),
            hash,
        },
        quantum_proofs: proofs,
        hybrid_hash,
    }
}

#[test]
fn test_verify_empty_chain() {
    assert!(BlockVerifier::verify_chain(&[]));
}

#[test]
fn test_verify_consistent_chain() {
    let b1 = make_hybrid_block(1, "0", vec!["tx1".to_string(), "tx2".to_string()]);
    let b2 = make_hybrid_block(2, &b1.pos_block.hash.clone(), vec!["tx3".to_string()]);
    assert!(BlockVerifier::verify_pos_block(&b1.pos_block));
    assert!(BlockVerifier::verify_hybrid_block(&b1));
    assert!(BlockVerifier::verify_chain(&[b1, b2]));
}

#[test]
fn test_verify_chain_rejects_mutated_transaction() {
    let b1 = make_hybrid_block(1, "0", vec!["tx1".to_string(), "tx2".to_string()]);
    let mut b2 = make_hybrid_block(2, &b1.pos_block.hash.clone(), vec!["tx3".to_string()]);
    b2.pos_block.transactions[0] = "tx3-tampered".to_string();
    assert!(!BlockVerifier::verify_chain(&[b1, b2]));
}

#[test]
fn test_verify_chain_rejects_broken_continuity() {
    let b1 = make_hybrid_block(1, "0", vec!["tx1".to_string()]);
    let b2 = make_hybrid_block(2, "not_the_previous_hash", vec!["tx2".to_string()]);
    assert!(BlockVerifier::verify_hybrid_block(&b2));
    assert!(!BlockVerifier::verify_chain(&[b1, b2]));
}

#[test]
fn test_verify_accepts_eight_char_prefix() {
    let mut b = make_hybrid_block(1, "0", vec!["tx1".to_string()]);
    // The declared hash only starts with the first 8 characters of the
    // recomputed digest: the deliberately lenient fallback accepts it.
    let full = b.pos_block.hash.clone();
    b.pos_block.hash = format!("{}XXXX", &full[..8]);
    b.hybrid_hash = hybrid_digest(&b.pos_block.hash, &b.quantum_proofs);
    assert!(BlockVerifier::verify_pos_block(&b.pos_block));
    assert!(BlockVerifier::verify_hybrid_block(&b));
}

#[test]
fn test_verify_rejects_wrong_hash() {
    let mut b = make_hybrid_block(1, "0", vec!["tx1".to_string()]);
    b.pos_block.hash = "deadbeef".repeat(8);
    assert!(!BlockVerifier::verify_pos_block(&b.pos_block));
    assert!(!BlockVerifier::verify_hybrid_block(&b));
}

#[test]
fn test_verify_rejects_wrong_hybrid_hash() {
    let mut b = make_hybrid_block(1, "0", vec!["tx1".to_string()]);
    b.hybrid_hash = "deadbeef".repeat(8);
    assert!(!BlockVerifier::verify_hybrid_block(&b));
    assert!(!BlockVerifier::verify_chain(&[b]));
}
