use evm_engine::engine::{Engine, EngineError, EngineState, SubmitError, SubmitOutcome};
use evm_engine::meta_parsing::MetaCallArgs;
use evm_engine::transaction::{EthSignedTransaction, EthTransaction};
use evm_engine::types::{Address, H256, U256};

fn addr(b: u8) -> Address {
    Address::new(vec![b; 20])
}

fn word(b: u8) -> H256 {
    H256::new(vec![b; 32])
}

fn engine(chain: u64, delay: u64) -> Engine {
    Engine::new(
        EngineState {
            owner_id: b"owner.near".to_vec(),
            bridge_prover_id: b"prover.near".to_vec(),
            chain_id: U256::from_u64(chain),
            upgrade_delay_blocks: delay,
        },
        vec![0xAA, 0xBB],
    )
}

fn call_tx(nonce: u64, to: Option<Address>, value: u64, data: Vec<u8>, v: u64) -> EthSignedTransaction {
    EthSignedTransaction {
        transaction: EthTransaction {
            nonce: U256::from_u64(nonce),
            gas_price: U256::from_u64(1),
            gas: U256::from_u64(21000),
            to,
            value: U256::from_u64(value),
            data,
        },
        v,
        r: U256::from_u64(1),
        s: U256::from_u64(1),
    }
}

#[test]
fn nonce_counts_admissions() {
    let mut e = engine(1, 0);
    let sender = addr(0x01);
    assert_eq!(e.get_nonce(&sender), U256::from_u64(0));
    for n in 0..3u64 {
        let tx = call_tx(n, Some(addr(0x02)), 0, vec![1], 27);
        let r = e.submit(&tx, Some(sender.duplicate()));
        assert!(r.is_ok());
        assert_eq!(e.get_nonce(&sender), U256::from_u64(n + 1));
    }
    // A stale nonce is rejected with zero state change.
    let stale = call_tx(1, Some(addr(0x02)), 0, vec![1], 27);
    let r = e.submit(&stale, Some(sender.duplicate()));
    assert_eq!(r.unwrap_err(), SubmitError::IncorrectNonce);
    assert_eq!(e.get_nonce(&sender), U256::from_u64(3));
}

#[test]
fn replay_is_rejected() {
    let mut e = engine(1, 0);
    let sender = addr(0x01);
    let tx = call_tx(0, Some(addr(0x02)), 0, vec![1, 2, 3], 27);
    assert!(e.submit(&tx, Some(sender.duplicate())).is_ok());
    let second = e.submit(&tx, Some(sender.duplicate()));
    assert_eq!(second.unwrap_err(), SubmitError::IncorrectNonce);
    assert_eq!(e.get_nonce(&sender), U256::from_u64(1));
}

#[test]
fn chain_id_isolation() {
    // Contract configured for chain 5, transaction bound to chain 9.
    let mut e = engine(5, 0);
    let sender = addr(0x01);
    e.set_balance(&sender, &U256::from_u64(100));
    let tx = call_tx(0, Some(addr(0x02)), 10, vec![], 35 + 2 * 9);
    let r = e.submit(&tx, Some(sender.duplicate()));
    assert_eq!(r.unwrap_err(), SubmitError::InvalidChainId);
    assert_eq!(e.get_nonce(&sender), U256::from_u64(0));
    assert_eq!(e.get_balance(&sender), U256::from_u64(100));
    // The matching chain id passes.
    let tx = call_tx(0, Some(addr(0x02)), 10, vec![], 35 + 2 * 5);
    assert!(e.submit(&tx, Some(sender.duplicate())).is_ok());
}

#[test]
fn invalid_signature_is_rejected() {
    let mut e = engine(1, 0);
    let tx = call_tx(0, Some(addr(0x02)), 0, vec![], 27);
    let r = e.submit(&tx, None);
    assert_eq!(r.unwrap_err(), SubmitError::InvalidEcdsaSignature);
}

#[test]
fn transfer_moves_only_balances() {
    let mut e = engine(1, 0);
    let sender = addr(0x01);
    let receiver = addr(0x02);
    e.set_balance(&sender, &U256::from_u64(100));
    e.set_storage(&sender, &word(0x05), &word(0x06));
    let tx = call_tx(0, Some(receiver.duplicate()), 30, vec![], 27);
    let r = e.submit(&tx, Some(sender.duplicate())).unwrap();
    assert!(matches!(r, SubmitOutcome::Transferred { .. }));
    assert_eq!(e.get_balance(&sender), U256::from_u64(70));
    assert_eq!(e.get_balance(&receiver), U256::from_u64(30));
    assert_eq!(e.get_nonce(&sender), U256::from_u64(1));
    // Code and storage are untouched.
    assert!(e.get_code(&sender).is_empty());
    assert!(e.get_code(&receiver).is_empty());
    assert_eq!(e.get_storage(&sender, &word(0x05)), word(0x06));
    assert_eq!(e.get_storage(&receiver, &word(0x05)), H256::zero());
}

#[test]
fn transfer_insufficient_balance_consumes_nonce() {
    let mut e = engine(1, 0);
    let sender = addr(0x01);
    e.set_balance(&sender, &U256::from_u64(10));
    let tx = call_tx(0, Some(addr(0x02)), 30, vec![], 27);
    let r = e.submit(&tx, Some(sender.duplicate()));
    assert_eq!(r.unwrap_err(), SubmitError::InsufficientBalance);
    // The nonce increment stays committed; balances are untouched.
    assert_eq!(e.get_nonce(&sender), U256::from_u64(1));
    assert_eq!(e.get_balance(&sender), U256::from_u64(10));
    assert_eq!(e.get_balance(&addr(0x02)), U256::from_u64(0));
}

#[test]
fn transfer_balance_overflow_is_rejected() {
    let mut e = engine(1, 0);
    let sender = addr(0x01);
    let receiver = addr(0x02);
    e.set_balance(&sender, &U256::from_u64(5));
    e.set_balance(&receiver, &U256::from_be_bytes32(vec![0xff; 32]));
    let tx = call_tx(0, Some(receiver.duplicate()), 1, vec![], 27);
    let r = e.submit(&tx, Some(sender.duplicate()));
    assert_eq!(r.unwrap_err(), SubmitError::BalanceOverflow);
    assert_eq!(e.get_balance(&sender), U256::from_u64(5));
}

#[test]
fn nonce_overflow_is_rejected() {
    let mut e = engine(1, 0);
    let sender = addr(0x01);
    let max = U256::from_be_bytes32(vec![0xff; 32]);
    e.set_nonce(&sender, &max);
    let mut tx = call_tx(0, Some(addr(0x02)), 0, vec![1], 27);
    tx.transaction.nonce = U256::from_be_bytes32(vec![0xff; 32]);
    let r = e.submit(&tx, Some(sender.duplicate()));
    assert_eq!(r.unwrap_err(), SubmitError::NonceOverflow);
    assert_eq!(e.get_nonce(&sender), max);
}

#[test]
fn deploy_and_call_dispatch() {
    let mut e = engine(1, 0);
    let sender = addr(0x01);
    let tx = call_tx(0, None, 7, vec![0xde, 0xad], 27);
    match e.submit(&tx, Some(sender.duplicate())).unwrap() {
        SubmitOutcome::Deploy { sender: s, value, init_code } => {
            assert_eq!(s, addr(0x01));
            assert_eq!(value, U256::from_u64(7));
            assert_eq!(init_code, vec![0xde, 0xad]);
        }
        other => panic!("expected a deployment, got {:?}", other),
    }
    let tx = call_tx(1, Some(addr(0x02)), 3, vec![0x01], 27);
    match e.submit(&tx, Some(sender.duplicate())).unwrap() {
        SubmitOutcome::Call { sender: s, receiver, value, data } => {
            assert_eq!(s, addr(0x01));
            assert_eq!(receiver, addr(0x02));
            assert_eq!(value, U256::from_u64(3));
            assert_eq!(data, vec![0x01]);
        }
        other => panic!("expected a call, got {:?}", other),
    }
}

#[test]
fn meta_call_checks_nonce() {
    let mut e = engine(1, 0);
    let args = MetaCallArgs {
        sender: addr(0x09),
        contract_address: addr(0x0a),
        value: U256::from_u64(0),
        nonce: U256::from_u64(5),
        input: vec![1, 2],
    };
    let r = e.meta_call(args);
    assert_eq!(r.unwrap_err(), SubmitError::IncorrectNonce);
    let args = MetaCallArgs {
        sender: addr(0x09),
        contract_address: addr(0x0a),
        value: U256::from_u64(0),
        nonce: U256::from_u64(0),
        input: vec![1, 2],
    };
    match e.meta_call(args).unwrap() {
        SubmitOutcome::Call { sender, receiver, data, .. } => {
            assert_eq!(sender, addr(0x09));
            assert_eq!(receiver, addr(0x0a));
            assert_eq!(data, vec![1, 2]);
        }
        other => panic!("expected a call, got {:?}", other),
    }
    assert_eq!(e.get_nonce(&addr(0x09)), U256::from_u64(1));
}

#[test]
fn upgrade_delay_is_enforced() {
    let mut e = engine(1, 5);
    let owner = b"owner.near".to_vec();
    let blob = vec![1, 2, 3];
    assert!(e.stage_upgrade(&owner, &blob, 10).is_ok());
    assert_eq!(e.get_upgrade_index().unwrap(), 15);
    // At the boundary and before it, deployment is too early.
    assert_eq!(e.deploy_upgrade(15).unwrap_err(), EngineError::TooEarly);
    assert_eq!(e.deploy_upgrade(10).unwrap_err(), EngineError::TooEarly);
    assert_eq!(e.code, vec![0xAA, 0xBB]);
    // One block past the window it succeeds, and code reads reflect
    // the staged blob; the staging record is consumed.
    assert!(e.deploy_upgrade(16).is_ok());
    assert_eq!(e.code, vec![1, 2, 3]);
    assert_eq!(e.get_upgrade_index().unwrap_err(), EngineError::NoUpgrade);
    assert_eq!(e.deploy_upgrade(20).unwrap_err(), EngineError::NoUpgrade);
}

#[test]
fn restaging_overwrites() {
    let mut e = engine(1, 0);
    let owner = b"owner.near".to_vec();
    assert!(e.stage_upgrade(&owner, &vec![1], 10).is_ok());
    assert!(e.stage_upgrade(&owner, &vec![2], 20).is_ok());
    assert_eq!(e.get_upgrade_index().unwrap(), 20);
    assert!(e.deploy_upgrade(21).is_ok());
    assert_eq!(e.code, vec![2]);
}

#[test]
fn owner_gating() {
    let mut e = engine(1, 5);
    let mallory = b"mallory.near".to_vec();
    let r = e.stage_upgrade(&mallory, &vec![9], 10);
    assert_eq!(r.unwrap_err(), EngineError::NotAllowed);
    assert_eq!(e.get_upgrade_index().unwrap_err(), EngineError::NoUpgrade);
    // Re-initialization is owner-gated once an owner is set.
    let new_state = EngineState {
        owner_id: b"mallory.near".to_vec(),
        bridge_prover_id: b"prover.near".to_vec(),
        chain_id: U256::from_u64(2),
        upgrade_delay_blocks: 0,
    };
    assert_eq!(e.initialize(&mallory, new_state).unwrap_err(), EngineError::NotAllowed);
    assert_eq!(e.get_owner(), b"owner.near".to_vec());
    let new_state = EngineState {
        owner_id: b"owner2.near".to_vec(),
        bridge_prover_id: b"prover.near".to_vec(),
        chain_id: U256::from_u64(2),
        upgrade_delay_blocks: 0,
    };
    let owner = b"owner.near".to_vec();
    assert!(e.initialize(&owner, new_state).is_ok());
    assert_eq!(e.get_owner(), b"owner2.near".to_vec());
    assert_eq!(e.get_chain_id(), U256::from_u64(2));
}

#[test]
fn uninitialized_engine_accepts_first_owner() {
    let mut e = Engine::new(
        EngineState {
            owner_id: vec![],
            bridge_prover_id: vec![],
            chain_id: U256::from_u64(0),
            upgrade_delay_blocks: 0,
        },
        vec![],
    );
    let anyone = b"anyone.near".to_vec();
    let state = EngineState {
        owner_id: b"owner.near".to_vec(),
        bridge_prover_id: b"prover.near".to_vec(),
        chain_id: U256::from_u64(1),
        upgrade_delay_blocks: 3,
    };
    assert!(e.initialize(&anyone, state).is_ok());
    assert_eq!(e.get_owner(), b"owner.near".to_vec());
    assert_eq!(e.get_bridge_provider(), b"prover.near".to_vec());
}

#[test]
fn storage_accessor_roundtrip() {
    let mut e = engine(1, 0);
    let a = addr(0x01);
    assert_eq!(e.get_storage(&a, &word(0x07)), H256::zero());
    e.set_storage(&a, &word(0x07), &word(0x55));
    assert_eq!(e.get_storage(&a, &word(0x07)), word(0x55));
    // Another slot of the same account is untouched.
    assert_eq!(e.get_storage(&a, &word(0x08)), H256::zero());
    e.set_code(&a, &vec![0x60, 0x60]);
    assert_eq!(e.get_code(&a), vec![0x60, 0x60]);
    // Writing code did not disturb the slot.
    assert_eq!(e.get_storage(&a, &word(0x07)), word(0x55));
}

#[test]
fn error_codes() {
    assert_eq!(SubmitError::InvalidChainId.code(), "ERR_INVALID_CHAIN_ID");
    assert_eq!(SubmitError::InvalidEcdsaSignature.code(), "ERR_INVALID_ECDSA_SIGNATURE");
    assert_eq!(SubmitError::IncorrectNonce.code(), "ERR_INCORRECT_NONCE");
    assert_eq!(EngineError::NotAllowed.code(), "ERR_NOT_ALLOWED");
    assert_eq!(EngineError::NoUpgrade.code(), "ERR_NO_UPGRADE");
    assert_eq!(EngineError::TooEarly.code(), "ERR_NOT_ALLOWED:TOO_EARLY");
}

#[test]
fn begin_chain_reseeds_balances() {
    let mut e = engine(1, 0);
    let owner = b"owner.near".to_vec();
    let genesis = vec![
        (addr(0x01), U256::from_u64(100)),
        (addr(0x02), U256::from_u64(200)),
        (addr(0x01), U256::from_u64(150)),
    ];
    let mallory = b"mallory.near".to_vec();
    assert_eq!(
        e.begin_chain(&mallory, U256::from_u64(9), &genesis).unwrap_err(),
        EngineError::NotAllowed
    );
    assert_eq!(e.get_chain_id(), U256::from_u64(1));
    assert!(e.begin_chain(&owner, U256::from_u64(9), &genesis).is_ok());
    assert_eq!(e.get_chain_id(), U256::from_u64(9));
    // Later genesis entries win.
    assert_eq!(e.get_balance(&addr(0x01)), U256::from_u64(150));
    assert_eq!(e.get_balance(&addr(0x02)), U256::from_u64(200));
}

#[test]
fn meta_call_nonce_overflow_is_rejected() {
    let mut e = engine(1, 0);
    let max = U256::from_be_bytes32(vec![0xff; 32]);
    e.set_nonce(&addr(0x09), &max);
    let args = MetaCallArgs {
        sender: addr(0x09),
        contract_address: addr(0x0a),
        value: U256::from_u64(0),
        nonce: U256::from_be_bytes32(vec![0xff; 32]),
        input: vec![],
    };
    assert_eq!(e.meta_call(args).unwrap_err(), SubmitError::NonceOverflow);
    assert_eq!(e.get_nonce(&addr(0x09)), max);
}
