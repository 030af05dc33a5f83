use nyxora::hybrid::HybridConsensus;
use nyxora::poq::{PoQConsensus, QuantumProof};
use nyxora::pos::PoSConsensus;

fn now() -> u64 {
    std::time::SystemTime::now()
        .duration_since(std::time::UNIX_EPOCH)
        .unwrap()
        .as_secs()
}

#[test]
fn test_validator_registration() {
    let mut pos = PoSConsensus::new();
    let address = "Qvalidator123".to_string();
    let stake = 1000;

    pos.register_validator(address.clone(), stake);

    assert!(pos.has_validator(&address));
    let validator = pos.get_validator(&address).unwrap();
    assert_eq!(validator.stake, stake);
    assert_eq!(pos.total_stake, stake);
}

#[test]
fn test_staking() {
    let mut pos = PoSConsensus::new();
    let address = "Qvalidator123".to_string();
    let initial_stake = 1000;
    let additional_stake = 500;

    pos.register_validator(address.clone(), initial_stake);
    let success = pos.stake(&address, additional_stake);

    assert!(success);
    let validator = pos.get_validator(&address).unwrap();
    assert_eq!(validator.stake, initial_stake + additional_stake);
    assert_eq!(pos.total_stake, initial_stake + additional_stake);
}

#[test]
fn test_unstaking() {
    let mut pos = PoSConsensus::new();
    let address = "Qvalidator123".to_string();
    let initial_stake = 1000;
    let unstake_amount = 300;

    pos.register_validator(address.clone(), initial_stake);
    let success = pos.unstake(&address, unstake_amount);

    assert!(success);
    let validator = pos.get_validator(&address).unwrap();
    assert_eq!(validator.stake, initial_stake - unstake_amount);
    assert_eq!(pos.total_stake, initial_stake - unstake_amount);
}

#[test]
fn test_unstaking_insufficient_funds() {
    let mut pos = PoSConsensus::new();
    let address = "Qvalidator123".to_string();
    let initial_stake = 100;
    let unstake_amount = 300;

    pos.register_validator(address.clone(), initial_stake);
    let success = pos.unstake(&address, unstake_amount);

    assert!(!success);
    let validator = pos.get_validator(&address).unwrap();
    assert_eq!(validator.stake, initial_stake);
    assert_eq!(pos.total_stake, initial_stake);
}

#[test]
fn test_challenge_generation() {
    let mut poq = PoQConsensus::new();
    let qubit_count = 10;

    let challenge = poq.generate_challenge(qubit_count);

    assert_eq!(challenge.qubit_count, qubit_count);
    assert!(challenge.reward > 0);
    assert!(poq.has_challenge(&challenge.challenge_id));
}

#[test]
fn test_proof_submission() {
    let mut poq = PoQConsensus::new();
    let qubit_count = 10;

    let challenge = poq.generate_challenge(qubit_count);
    let challenge_id = challenge.challenge_id.clone();

    let proof = QuantumProof {
        circuit_descriptor: challenge_id.clone(),
        measurement_results: vec![0, 1, 1, 0],
        proof_artifact: "valid_proof_hash".to_string(),
        qubit_count,
        validator_address: "Qvalidator123".to_string(),
        timestamp: now(),
    };

    let result = poq.submit_proof(proof);

    assert!(result.is_ok());
    assert!(!poq.has_challenge(&challenge_id));
}

#[test]
fn test_invalid_proof_submission() {
    let mut poq = PoQConsensus::new();
    let qubit_count = 10;

    let challenge = poq.generate_challenge(qubit_count);
    let challenge_id = challenge.challenge_id.clone();

    let proof = QuantumProof {
        circuit_descriptor: challenge_id.clone(),
        measurement_results: vec![0, 1, 1, 0],
        proof_artifact: "".to_string(),
        qubit_count,
        validator_address: "Qvalidator123".to_string(),
        timestamp: now(),
    };

    let result = poq.submit_proof(proof);

    assert!(result.is_err());
    assert!(poq.has_challenge(&challenge_id));
}

#[test]
fn test_hybrid_block_proposal() {
    let mut hybrid = HybridConsensus::new();
    let address = "Qvalidator123".to_string();
    let stake = 1000;

    hybrid.register_validator(address.clone(), stake);

    let transactions = vec!["tx1".to_string(), "tx2".to_string()];
    let result = hybrid.propose_hybrid_block(&address, transactions);

    assert!(result.is_some());
    let block = result.unwrap();
    assert_eq!(block.pos_block.proposer, address);
    assert_eq!(block.pos_block.transactions.len(), 2);
}

#[test]
fn test_validator_scoring() {
    let mut hybrid = HybridConsensus::new();
    let address = "Qvalidator123".to_string();
    let stake = 1000;

    hybrid.register_validator(address.clone(), stake);

    let qubit_count = 10;
    let challenge = hybrid.generate_quantum_challenge(qubit_count);
    let challenge_id = challenge.challenge_id.clone();

    let proof = QuantumProof {
        circuit_descriptor: challenge_id,
        measurement_results: vec![0, 1, 1, 0],
        proof_artifact: "valid_proof_hash".to_string(),
        qubit_count,
        validator_address: address.clone(),
        timestamp: now(),
    };

    let result = hybrid.submit_quantum_proof(proof);
    assert!(result.is_ok());

    let score = hybrid.poq.get_validator_score(&address);
    assert!(score > 0);
}

#[test]
fn test_total_stake_tracks_sum() {
    let mut pos = PoSConsensus::new();
    pos.register_validator("Qa".to_string(), 100);
    pos.register_validator("Qb".to_string(), 250);
    pos.register_validator("Qc".to_string(), 0);
    assert!(pos.stake(&"Qb".to_string(), 50));
    assert!(pos.unstake(&"Qa".to_string(), 30));
    assert!(!pos.stake(&"Qd".to_string(), 999));
    assert!(!pos.unstake(&"Qd".to_string(), 1));

    let sum = pos.get_validator("Qa").unwrap().stake
        + pos.get_validator("Qb").unwrap().stake
        + pos.get_validator("Qc").unwrap().stake;
    assert_eq!(sum, 370);
    assert_eq!(pos.total_stake, sum);
}

#[test]
fn test_reregistration_resets_record() {
    let mut pos = PoSConsensus::new();
    pos.register_validator("Qa".to_string(), 100);
    pos.register_validator("Qa".to_string(), 40);
    // The record is reset, while the total keeps accumulating: the one
    // sequence of calls after which the total no longer equals the sum.
    let v = pos.get_validator("Qa").unwrap();
    assert_eq!(v.stake, 40);
    assert_eq!(pos.total_stake, 140);
}

#[test]
fn test_select_proposer_empty_registry() {
    let pos = PoSConsensus::new();
    assert_eq!(pos.select_proposer(), None);
}

#[test]
fn test_select_proposer_zero_stake() {
    let mut pos = PoSConsensus::new();
    pos.register_validator("Qa".to_string(), 0);
    pos.register_validator("Qb".to_string(), 0);
    assert_eq!(pos.select_proposer(), None);
}

#[test]
fn test_propose_block_unregistered() {
    let mut pos = PoSConsensus::new();
    pos.register_validator("Qa".to_string(), 10);
    let before = pos.current_block;
    let block = pos.propose_block("Qunknown", vec!["tx".to_string()]);
    assert!(block.is_none());
    assert_eq!(pos.current_block, before);
}

#[test]
fn test_single_validator_scenario() {
    let mut pos = PoSConsensus::new();
    pos.register_validator("Qv1".to_string(), 1000);

    // The only validator is always elected.
    assert_eq!(pos.select_proposer(), Some("Qv1".to_string()));

    let block = pos.propose_block("Qv1", vec!["tx1".to_string()]).unwrap();
    assert_eq!(block.index, 1);
    assert_eq!(block.prev_hash, "0");
    assert_eq!(pos.current_block, 1);
    assert_eq!(pos.get_validator("Qv1").unwrap().last_block_proposed, 1);

    pos.calculate_rewards(&block);
    assert_eq!(pos.get_validator("Qv1").unwrap().stake, 1010);
    assert_eq!(pos.total_stake, 1010);
}

#[test]
fn test_challenge_reward_and_score() {
    let mut poq = PoQConsensus::new();
    let challenge = poq.generate_challenge(10);
    assert_eq!(challenge.reward, 100);

    let proof = QuantumProof {
        circuit_descriptor: challenge.challenge_id.clone(),
        measurement_results: vec![1],
        proof_artifact: "artifact".to_string(),
        qubit_count: 10,
        validator_address: "Qv1".to_string(),
        timestamp: now(),
    };
    // The deadline lies 300 seconds ahead, so an immediate submission is
    // in time.
    assert!(poq.submit_proof(proof).is_ok());
    assert_eq!(poq.get_validator_score("Qv1"), 100);
    assert_eq!(poq.proofs.len(), 1);
    assert_eq!(poq.get_validator_score("Qsomeone_else"), 0);
}

#[test]
fn test_submission_after_deadline() {
    let mut poq = PoQConsensus::new();
    let challenge = poq.generate_challenge_with(10, 7, 1000);
    assert_eq!(challenge.deadline, 1300);

    let proof = QuantumProof {
        circuit_descriptor: challenge.challenge_id.clone(),
        measurement_results: vec![1],
        proof_artifact: "artifact".to_string(),
        qubit_count: 10,
        validator_address: "Qv1".to_string(),
        timestamp: 1301,
    };
    let result = poq.submit_proof_at(proof, 1301);
    assert_eq!(result, Err("Challenge deadline exceeded".to_string()));
    assert!(poq.has_challenge(&challenge.challenge_id));
    assert_eq!(poq.get_validator_score("Qv1"), 0);
}

#[test]
fn test_submission_unknown_challenge() {
    let mut poq = PoQConsensus::new();
    let proof = QuantumProof {
        circuit_descriptor: "challenge_12345".to_string(),
        measurement_results: vec![1],
        proof_artifact: "artifact".to_string(),
        qubit_count: 10,
        validator_address: "Qv1".to_string(),
        timestamp: now(),
    };
    let result = poq.submit_proof(proof);
    assert_eq!(result, Err("Challenge not found".to_string()));
}

#[test]
fn test_invalid_proof_messages() {
    let mut poq = PoQConsensus::new();
    let challenge = poq.generate_challenge(10);

    let no_results = QuantumProof {
        circuit_descriptor: challenge.challenge_id.clone(),
        measurement_results: vec![],
        proof_artifact: "artifact".to_string(),
        qubit_count: 10,
        validator_address: "Qv1".to_string(),
        timestamp: now(),
    };
    assert_eq!(
        poq.submit_proof(no_results),
        Err("Invalid quantum proof".to_string())
    );

    let no_artifact = QuantumProof {
        circuit_descriptor: challenge.challenge_id.clone(),
        measurement_results: vec![1],
        proof_artifact: "".to_string(),
        qubit_count: 10,
        validator_address: "Qv1".to_string(),
        timestamp: now(),
    };
    assert_eq!(
        poq.submit_proof(no_artifact),
        Err("Invalid quantum proof".to_string())
    );
    assert!(poq.has_challenge(&challenge.challenge_id));
}

#[test]
fn test_hybrid_block_window_of_five() {
    let mut hybrid = HybridConsensus::new();
    hybrid.register_validator("Qv1".to_string(), 1000);

    for i in 0..7u64 {
        let challenge = hybrid.generate_quantum_challenge(10);
        let proof = QuantumProof {
            circuit_descriptor: challenge.challenge_id.clone(),
            measurement_results: vec![1],
            proof_artifact: format!("artifact_{}", i),
            qubit_count: 10,
            validator_address: "Qv1".to_string(),
            timestamp: now(),
        };
        assert!(hybrid.submit_quantum_proof(proof).is_ok());
    }

    let block = hybrid
        .propose_hybrid_block("Qv1", vec!["tx".to_string()])
        .unwrap();
    // The most recent five proofs, newest first.
    assert_eq!(block.quantum_proofs.len(), 5);
    let artifacts: Vec<String> = block
        .quantum_proofs
        .iter()
        .map(|p| p.proof_artifact.clone())
        .collect();
    assert_eq!(
        artifacts,
        vec![
            "artifact_6".to_string(),
            "artifact_5".to_string(),
            "artifact_4".to_string(),
            "artifact_3".to_string(),
            "artifact_2".to_string()
        ]
    );
}

#[test]
fn test_hybrid_rewards_applied() {
    let mut hybrid = HybridConsensus::new();
    hybrid.register_validator("Qv1".to_string(), 1000);
    let block = hybrid
        .propose_hybrid_block("Qv1", vec!["tx1".to_string()])
        .unwrap();
    assert_eq!(block.pos_block.index, 1);
    assert_eq!(hybrid.pos.get_validator("Qv1").unwrap().stake, 1010);
    assert_eq!(hybrid.pos.total_stake, 1010);
}

#[test]
fn test_hybrid_proposal_unregistered() {
    let mut hybrid = HybridConsensus::new();
    hybrid.register_validator("Qv1".to_string(), 1000);
    let result = hybrid.propose_hybrid_block("Qother", vec!["tx".to_string()]);
    assert!(result.is_none());
    assert_eq!(hybrid.pos.current_block, 0);
    assert_eq!(hybrid.pos.total_stake, 1000);
}
