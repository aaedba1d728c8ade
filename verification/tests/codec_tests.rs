use evm_engine::meta_parsing::{authenticate_meta_call, parse_meta_payload, MetaTxError};
use evm_engine::parameters::{
    encode_new_call_args, parse_function_call_args, parse_get_storage_at_args,
    parse_new_call_args, parse_view_call_args, NewCallArgs,
};
use evm_engine::meta_parsing::meta_call_signing_preimage;
use evm_engine::rlp::{decode_transaction, encode_transaction, encode_transaction_for_signing};
use evm_engine::storage::{
    address_to_key, bytes_to_key, storage_to_key, storage_to_key_nonced,
    EthConnectorStorageId, KeyPrefix, VersionPrefix,
};
use evm_engine::transaction::{EthSignedTransaction, EthTransaction};
use evm_engine::types::{Address, H256, U256};

fn addr(b: u8) -> Address {
    Address::new(vec![b; 20])
}

fn word(b: u8) -> H256 {
    H256::new(vec![b; 32])
}

#[test]
fn key_categories_are_disjoint() {
    let a = addr(0xaa);
    let nonce_key = address_to_key(KeyPrefix::Nonce, &a);
    let balance_key = address_to_key(KeyPrefix::Balance, &a);
    let code_key = address_to_key(KeyPrefix::Code, &a);
    assert_ne!(nonce_key, balance_key);
    assert_ne!(nonce_key, code_key);
    assert_ne!(balance_key, code_key);
    let storage_key = storage_to_key(&a, &word(0xaa));
    assert_ne!(storage_key[1], nonce_key[1]);
}

#[test]
fn address_key_layout() {
    let a = addr(0x11);
    let k = address_to_key(KeyPrefix::Nonce, &a);
    assert_eq!(k.len(), 22);
    assert_eq!(k[0], 0x07);
    assert_eq!(k[1], 0x01);
    assert_eq!(&k[2..], &[0x11; 20][..]);
}

#[test]
fn bytes_key_layout() {
    let k = bytes_to_key(KeyPrefix::EthConnector, &vec![1, 2, 3]);
    assert_eq!(k, vec![0x07, 0x06, 1, 2, 3]);
}

#[test]
fn storage_key_layout() {
    let a = addr(0x22);
    let k = storage_to_key(&a, &word(0x33));
    assert_eq!(k.len(), 54);
    assert_eq!(k[0], 0x07);
    assert_eq!(k[1], 0x04);
    assert_eq!(&k[2..22], &[0x22; 20][..]);
    assert_eq!(&k[22..], &[0x33; 32][..]);
}

#[test]
fn storage_key_nonced_layout() {
    let a = addr(0x22);
    let k = storage_to_key_nonced(&a, 0x01020304, &word(0x33));
    assert_eq!(k.len(), 58);
    assert_eq!(&k[22..26], &[0x04, 0x03, 0x02, 0x01][..]);
    assert_eq!(&k[26..], &[0x33; 32][..]);
}

#[test]
fn version_and_connector_bytes() {
    assert_eq!(VersionPrefix::V1.to_byte(), 0x07);
    assert_eq!(EthConnectorStorageId::Contract.to_byte(), 0x00);
    assert_eq!(EthConnectorStorageId::FungibleToken.to_byte(), 0x01);
    assert_eq!(EthConnectorStorageId::UsedEvent.to_byte(), 0x02);
    assert_eq!(
        EthConnectorStorageId::StatisticsAuroraAccountsCounter.to_byte(),
        0x03
    );
}

#[test]
fn key_prefix_bytes() {
    for b in 0u8..7 {
        let p = KeyPrefix::from_byte(b).unwrap();
        assert_eq!(p.to_byte(), b);
    }
    assert!(KeyPrefix::from_byte(7).is_none());
    assert!(KeyPrefix::from_byte(0xff).is_none());
}

fn sample_tx() -> EthSignedTransaction {
    EthSignedTransaction {
        transaction: EthTransaction {
            nonce: U256::from_u64(7),
            gas_price: U256::from_u64(1_000_000_000),
            gas: U256::from_u64(21000),
            to: Some(addr(0xbe)),
            value: U256::from_u64(123_456_789),
            data: vec![0xca, 0xfe, 0xba, 0xbe],
        },
        v: 37,
        r: U256::from_u64(0xdead),
        s: U256::from_u64(0xbeef),
    }
}

#[test]
fn transaction_roundtrip() {
    let tx = sample_tx();
    let wire = encode_transaction(&tx);
    let decoded = decode_transaction(&wire).unwrap();
    assert_eq!(decoded, tx);
}

#[test]
fn transaction_roundtrip_deploy_shape() {
    let mut tx = sample_tx();
    tx.transaction.to = None;
    tx.transaction.data = vec![0u8; 100];
    tx.v = 27;
    let wire = encode_transaction(&tx);
    let decoded = decode_transaction(&wire).unwrap();
    assert_eq!(decoded, tx);
}

#[test]
fn transaction_known_encoding() {
    // All-zero scalars, no receiver, empty data, legacy parity 27 and
    // unit signature words: nine one-byte items inside a short list.
    let tx = EthSignedTransaction {
        transaction: EthTransaction {
            nonce: U256::from_u64(0),
            gas_price: U256::from_u64(0),
            gas: U256::from_u64(0),
            to: None,
            value: U256::from_u64(0),
            data: vec![],
        },
        v: 27,
        r: U256::from_u64(1),
        s: U256::from_u64(1),
    };
    let wire = encode_transaction(&tx);
    assert_eq!(
        wire,
        vec![0xc9, 0x80, 0x80, 0x80, 0x80, 0x80, 0x80, 0x1b, 0x01, 0x01]
    );
}

#[test]
fn decode_rejects_malformed() {
    assert!(decode_transaction(&vec![]).is_err());
    assert!(decode_transaction(&vec![0x00]).is_err());
    // A string where a list is required.
    assert!(decode_transaction(&vec![0x83, 1, 2, 3]).is_err());
    // A list with too few items.
    assert!(decode_transaction(&vec![0xc2, 0x80, 0x80]).is_err());
    // Trailing garbage after a well-formed transaction.
    let mut wire = encode_transaction(&sample_tx());
    wire.push(0x00);
    assert!(decode_transaction(&wire).is_err());
    // A non-minimal scalar: nonce encoded with a leading zero.
    let wire = vec![0xca, 0x82, 0x00, 0x07, 0x80, 0x80, 0x80, 0x80, 0x80, 0x1b, 0x01, 0x01];
    assert!(decode_transaction(&wire).is_err());
}

#[test]
fn chain_id_extraction() {
    let mut tx = sample_tx();
    tx.v = 27;
    assert_eq!(tx.chain_id(), None);
    tx.v = 28;
    assert_eq!(tx.chain_id(), None);
    tx.v = 37;
    assert_eq!(tx.chain_id(), Some(1));
    tx.v = 38;
    assert_eq!(tx.chain_id(), Some(1));
    tx.v = 35 + 2 * 1313161554;
    assert_eq!(tx.chain_id(), Some(1313161554));
    tx.v = 30;
    assert_eq!(tx.chain_id(), None);
}

#[test]
fn new_call_args_roundtrip() {
    let args = NewCallArgs {
        chain_id: U256::from_u64(1313161554),
        owner_id: b"owner.near".to_vec(),
        bridge_prover_id: b"prover.near".to_vec(),
        upgrade_delay_blocks: 17,
    };
    let bytes = encode_new_call_args(&args);
    let parsed = parse_new_call_args(&bytes).unwrap();
    assert_eq!(parsed.chain_id, args.chain_id);
    assert_eq!(parsed.owner_id, args.owner_id);
    assert_eq!(parsed.bridge_prover_id, args.bridge_prover_id);
    assert_eq!(parsed.upgrade_delay_blocks, 17);
}

#[test]
fn new_call_args_rejects_malformed() {
    assert!(parse_new_call_args(&vec![0u8; 39]).is_err());
    let args = NewCallArgs {
        chain_id: U256::from_u64(1),
        owner_id: b"o".to_vec(),
        bridge_prover_id: b"p".to_vec(),
        upgrade_delay_blocks: 0,
    };
    let mut bytes = encode_new_call_args(&args);
    bytes.push(0);
    assert!(parse_new_call_args(&bytes).is_err());
}

#[test]
fn function_call_args_layout() {
    let mut bytes = vec![0x77u8; 20];
    bytes.extend_from_slice(&[3, 0, 0, 0]);
    bytes.extend_from_slice(&[9, 8, 7]);
    let parsed = parse_function_call_args(&bytes).unwrap();
    assert_eq!(parsed.contract.0, vec![0x77; 20]);
    assert_eq!(parsed.input, vec![9, 8, 7]);
    bytes.push(0);
    assert!(parse_function_call_args(&bytes).is_err());
}

#[test]
fn get_storage_at_args_layout() {
    let mut bytes = vec![0x11u8; 20];
    bytes.extend_from_slice(&[0x22; 32]);
    let parsed = parse_get_storage_at_args(&bytes).unwrap();
    assert_eq!(parsed.address.0, vec![0x11; 20]);
    assert_eq!(parsed.key.0, vec![0x22; 32]);
    assert!(parse_get_storage_at_args(&vec![0u8; 51]).is_err());
    assert!(parse_get_storage_at_args(&vec![0u8; 53]).is_err());
}

#[test]
fn meta_payload_parsing() {
    let mut payload = vec![0x01u8; 65];
    payload.extend_from_slice(&[0x02; 32]);
    payload.extend_from_slice(&[0x03; 20]);
    payload.extend_from_slice(&[0x04; 32]);
    payload.extend_from_slice(&[5, 6]);
    let p = parse_meta_payload(&payload).unwrap();
    assert_eq!(p.signature, vec![0x01; 65]);
    assert_eq!(p.nonce.0, vec![0x02; 32]);
    assert_eq!(p.contract_address.0, vec![0x03; 20]);
    assert_eq!(p.value.0, vec![0x04; 32]);
    assert_eq!(p.input, vec![5, 6]);
    assert!(parse_meta_payload(&vec![0u8; 148]).is_err());
}

#[test]
fn meta_authentication() {
    let mut payload = vec![0x01u8; 149];
    payload.push(0xff);
    let p = parse_meta_payload(&payload).unwrap();
    let err = authenticate_meta_call(p, None).unwrap_err();
    assert_eq!(err, MetaTxError::BadSignature);
    let p = parse_meta_payload(&payload).unwrap();
    let args = authenticate_meta_call(p, Some(addr(0x42))).unwrap();
    assert_eq!(args.sender.0, vec![0x42; 20]);
    assert_eq!(args.input, vec![0xff]);
}

#[test]
fn u256_arithmetic() {
    let a = U256::from_u64(u64::MAX);
    let b = U256::from_u64(1);
    let sum = a.checked_add(&b).unwrap();
    let mut expected = vec![0u8; 32];
    expected[23] = 1;
    assert_eq!(sum.0, expected);
    assert_eq!(sum.checked_sub(&b).unwrap(), a);
    assert!(b.checked_sub(&a).is_none());
    let max = U256::from_be_bytes32(vec![0xff; 32]);
    assert!(max.checked_incr().is_none());
    assert!(max.checked_add(&b).is_none());
    assert_eq!(U256::from_u64(41).checked_incr().unwrap(), U256::from_u64(42));
}

#[test]
fn view_call_args_layout() {
    let mut bytes = vec![0x01u8; 20];
    bytes.extend_from_slice(&[0x02; 20]);
    bytes.extend_from_slice(&[0x03; 32]);
    bytes.extend_from_slice(&[2, 0, 0, 0]);
    bytes.extend_from_slice(&[0xaa, 0xbb]);
    let parsed = parse_view_call_args(&bytes).unwrap();
    assert_eq!(parsed.sender.0, vec![0x01; 20]);
    assert_eq!(parsed.address.0, vec![0x02; 20]);
    assert_eq!(parsed.amount.0, vec![0x03; 32]);
    assert_eq!(parsed.input, vec![0xaa, 0xbb]);
    bytes.pop();
    assert!(parse_view_call_args(&bytes).is_err());
}

#[test]
fn signing_preimage_known_encodings() {
    let body = EthTransaction {
        nonce: U256::from_u64(0),
        gas_price: U256::from_u64(0),
        gas: U256::from_u64(0),
        to: None,
        value: U256::from_u64(0),
        data: vec![],
    };
    // Legacy scheme: six empty items.
    let legacy = encode_transaction_for_signing(&body, None);
    assert_eq!(legacy, vec![0xc6, 0x80, 0x80, 0x80, 0x80, 0x80, 0x80]);
    // Chain-id-binding scheme: the chain id and two empty items follow.
    let bound = encode_transaction_for_signing(&body, Some(1));
    assert_eq!(
        bound,
        vec![0xc9, 0x80, 0x80, 0x80, 0x80, 0x80, 0x80, 0x01, 0x80, 0x80]
    );
}

#[test]
fn meta_signing_preimage_layout() {
    let nonce = U256::from_u64(7);
    let contract = addr(0x0a);
    let value = U256::from_u64(3);
    let input = vec![0xde, 0xad];
    let pre = meta_call_signing_preimage(&nonce, &contract, &value, &input);
    assert_eq!(pre.len(), 32 + 20 + 32 + 2);
    assert_eq!(&pre[0..32], &nonce.0[..]);
    assert_eq!(&pre[32..52], &contract.0[..]);
    assert_eq!(&pre[52..84], &value.0[..]);
    assert_eq!(&pre[84..], &input[..]);
}
