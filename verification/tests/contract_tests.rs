use nyxora::contracts::ContractRuntime;

#[test]
fn test_deploy_contract() {
    let mut runtime = ContractRuntime::new(10000);

    let result = runtime.deploy_contract(
        "test_contract".to_string(),
        "contract code".to_string(),
        "Qvalidator123".to_string(),
    );

    assert!(result.is_ok());
    assert!(runtime.has_contract("test_contract"));
}

#[test]
fn test_deploy_duplicate_contract() {
    let mut runtime = ContractRuntime::new(10000);

    let result1 = runtime.deploy_contract(
        "test_contract".to_string(),
        "contract code".to_string(),
        "Qvalidator123".to_string(),
    );
    assert!(result1.is_ok());

    let result2 = runtime.deploy_contract(
        "test_contract".to_string(),
        "contract code".to_string(),
        "Qvalidator123".to_string(),
    );

    assert!(result2.is_err());
}

#[test]
fn test_quantum_randomness_contract() {
    let mut runtime = ContractRuntime::new(10000);

    let code = r#"
        contract QuantumRandomness {
            // Contract code here
        }
        "#
    .to_string();

    let deploy_result = runtime.deploy_contract(
        "quantum_randomness".to_string(),
        code,
        "Qvalidator123".to_string(),
    );
    assert!(deploy_result.is_ok());

    let result = runtime
        .execute_contract("quantum_randomness", "requestRandomness", vec![])
        .unwrap();

    assert!(result.success);
    assert_eq!(result.output, "{\"requestId\": 0}");
}

#[test]
fn test_quantum_nft_contract() {
    let mut runtime = ContractRuntime::new(10000);

    let code = r#"
        contract QuantumNFT {
            // Contract code here
        }
        "#
    .to_string();

    let deploy_result = runtime.deploy_contract(
        "quantum_nft".to_string(),
        code,
        "Qvalidator123".to_string(),
    );
    assert!(deploy_result.is_ok());

    let result = runtime
        .execute_contract(
            "quantum_nft",
            "mintNFT",
            vec!["ipfs://nft-metadata".to_string(), "0xquantumproofhash".to_string()],
        )
        .unwrap();

    assert!(result.success);
    let output: serde_json::Value = serde_json::from_str(&result.output).unwrap();
    let token_id = output["tokenId"].as_u64().unwrap();
    assert_eq!(token_id, 0);
}

#[test]
fn test_invalid_contract_function() {
    let mut runtime = ContractRuntime::new(10000);

    let code = r#"
        contract TestContract {
            // Contract code here
        }
        "#
    .to_string();

    let deploy_result = runtime.deploy_contract(
        "test_contract".to_string(),
        code,
        "Qvalidator123".to_string(),
    );
    assert!(deploy_result.is_ok());

    let result = runtime
        .execute_contract("test_contract", "nonExistentFunction", vec![])
        .unwrap();

    assert!(!result.success);
    assert!(result.output.contains("not found"));
}

#[test]
fn test_deploy_and_execute_quantum_randomness() {
    let mut runtime = ContractRuntime::new(10000);

    let code = r#"
        contract QuantumRandomness {
            // Contract code here
        }
        "#
    .to_string();

    runtime
        .deploy_contract(
            "quantum_randomness".to_string(),
            code,
            "Qvalidator123".to_string(),
        )
        .unwrap();

    let result = runtime
        .execute_contract("quantum_randomness", "requestRandomness", vec![])
        .unwrap();

    assert!(result.success);
    assert_eq!(result.output, "{\"requestId\": 0}");
}

#[test]
fn mod_test_deploy_and_execute_quantum_randomness() {
    let mut runtime = ContractRuntime::new(10000);

    let code = r#"
        contract QuantumRandomness {
            // Contract code here
        }
        "#
    .to_string();

    runtime
        .deploy_contract(
            "quantum_randomness".to_string(),
            code,
            "Qvalidator123".to_string(),
        )
        .unwrap();

    let result = runtime
        .execute_contract("quantum_randomness", "requestRandomness", vec![])
        .unwrap();

    assert!(result.success);
    assert_eq!(result.output, "{\"requestId\": 0}");
}

#[test]
fn test_deploy_and_execute_quantum_nft() {
    let mut runtime = ContractRuntime::new(10000);

    let code = r#"
        contract QuantumNFT {
            // Contract code here
        }
        "#
    .to_string();

    runtime
        .deploy_contract(
            "quantum_nft".to_string(),
            code,
            "Qvalidator123".to_string(),
        )
        .unwrap();

    let result = runtime
        .execute_contract(
            "quantum_nft",
            "mintNFT",
            vec!["ipfs://nft-metadata".to_string(), "0xquantumproofhash".to_string()],
        )
        .unwrap();

    assert!(result.success);
    let output: serde_json::Value = serde_json::from_str(&result.output).unwrap();
    let token_id = output["tokenId"].as_u64().unwrap();
    assert_eq!(token_id, 0);
}

#[test]
fn mod_test_deploy_and_execute_quantum_nft() {
    let mut runtime = ContractRuntime::new(10000);

    let code = r#"
        contract QuantumNFT {
            // Contract code here
        }
        "#
    .to_string();

    runtime
        .deploy_contract(
            "quantum_nft".to_string(),
            code,
            "Qvalidator123".to_string(),
        )
        .unwrap();

    let result = runtime
        .execute_contract(
            "quantum_nft",
            "mintNFT",
            vec!["ipfs://nft-metadata".to_string(), "0xquantumproofhash".to_string()],
        )
        .unwrap();

    assert!(result.success);
    let output: serde_json::Value = serde_json::from_str(&result.output).unwrap();
    let token_id = output["tokenId"].as_u64().unwrap();
    assert_eq!(token_id, 0);
}

#[test]
fn test_execute_missing_contract() {
    let mut runtime = ContractRuntime::new(10000);
    let result = runtime.execute_contract("nowhere", "requestRandomness", vec![]);
    assert_eq!(result.err(), Some("Contract not found".to_string()));
}

#[test]
fn test_unknown_contract_type() {
    let mut runtime = ContractRuntime::new(10000);
    runtime
        .deploy_contract("other".to_string(), "code".to_string(), "Qc".to_string())
        .unwrap();
    let result = runtime
        .execute_contract("other", "anything", vec![])
        .unwrap();
    assert!(!result.success);
    assert_eq!(result.gas_used, 0);
    assert_eq!(result.output, "Contract type not found");
}

#[test]
fn test_request_counter_advances() {
    let mut runtime = ContractRuntime::new(10000);
    runtime
        .deploy_contract(
            "quantum_randomness".to_string(),
            "code".to_string(),
            "Qc".to_string(),
        )
        .unwrap();
    let r0 = runtime
        .execute_contract("quantum_randomness", "requestRandomness", vec![])
        .unwrap();
    let r1 = runtime
        .execute_contract("quantum_randomness", "requestRandomness", vec![])
        .unwrap();
    let r2 = runtime
        .execute_contract("quantum_randomness", "requestRandomness", vec![])
        .unwrap();
    assert_eq!(r0.output, "{\"requestId\": 0}");
    assert_eq!(r1.output, "{\"requestId\": 1}");
    assert_eq!(r2.output, "{\"requestId\": 2}");
    assert_eq!(r2.state_changes.len(), 1);
    assert_eq!(r2.state_changes[0].key, "requestCount");
    assert_eq!(r2.state_changes[0].value, "3");
}

#[test]
fn test_fulfill_randomness_paths() {
    let mut runtime = ContractRuntime::new(10000);
    runtime
        .deploy_contract(
            "quantum_randomness".to_string(),
            "code".to_string(),
            "Qc".to_string(),
        )
        .unwrap();

    let too_few = runtime
        .execute_contract("quantum_randomness", "fulfillRandomness", vec!["0".to_string()])
        .unwrap();
    assert!(!too_few.success);
    assert_eq!(too_few.output, "Insufficient arguments for fulfillRandomness");

    let empty_proof = runtime
        .execute_contract(
            "quantum_randomness",
            "fulfillRandomness",
            vec!["0".to_string(), "42".to_string(), "".to_string()],
        )
        .unwrap();
    assert!(!empty_proof.success);
    assert_eq!(empty_proof.output, "Invalid quantum proof");

    let ok = runtime
        .execute_contract(
            "quantum_randomness",
            "fulfillRandomness",
            vec!["0".to_string(), "42".to_string(), "proof".to_string()],
        )
        .unwrap();
    assert!(ok.success);
    assert_eq!(ok.gas_used, 200);
    assert_eq!(ok.output, "{\"success\": true, \"requestId\": 0}");
    assert_eq!(ok.state_changes.len(), 1);
    assert_eq!(ok.state_changes[0].key, "randomness_0");
    assert_eq!(ok.state_changes[0].value, "42");
}

#[test]
fn test_mint_nft_paths() {
    let mut runtime = ContractRuntime::new(10000);
    runtime
        .deploy_contract("quantum_nft".to_string(), "code".to_string(), "Qc".to_string())
        .unwrap();

    let too_few = runtime
        .execute_contract("quantum_nft", "mintNFT", vec!["uri".to_string()])
        .unwrap();
    assert!(!too_few.success);
    assert_eq!(too_few.output, "Insufficient arguments for mintNFT");

    let zero_hash = runtime
        .execute_contract(
            "quantum_nft",
            "mintNFT",
            vec!["uri".to_string(), "0".to_string()],
        )
        .unwrap();
    assert!(!zero_hash.success);
    assert_eq!(zero_hash.output, "Invalid quantum proof hash");

    let empty_hash = runtime
        .execute_contract(
            "quantum_nft",
            "mintNFT",
            vec!["uri".to_string(), "".to_string()],
        )
        .unwrap();
    assert!(!empty_hash.success);
    assert_eq!(empty_hash.output, "Invalid quantum proof hash");

    let first = runtime
        .execute_contract(
            "quantum_nft",
            "mintNFT",
            vec!["uri_a".to_string(), "0xaaa".to_string()],
        )
        .unwrap();
    assert!(first.success);
    assert_eq!(first.gas_used, 150);
    assert_eq!(first.output, "{\"tokenId\": 0}");
    assert_eq!(first.state_changes.len(), 3);
    assert_eq!(first.state_changes[0].key, "tokenCount");
    assert_eq!(first.state_changes[0].value, "1");
    assert_eq!(first.state_changes[1].key, "tokenURI_0");
    assert_eq!(first.state_changes[1].value, "uri_a");
    assert_eq!(first.state_changes[2].key, "quantumProofHash_0");
    assert_eq!(first.state_changes[2].value, "0xaaa");

    let second = runtime
        .execute_contract(
            "quantum_nft",
            "mintNFT",
            vec!["uri_b".to_string(), "0xbbb".to_string()],
        )
        .unwrap();
    assert!(second.success);
    assert_eq!(second.output, "{\"tokenId\": 1}");
}
