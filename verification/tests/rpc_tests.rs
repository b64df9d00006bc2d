use narwhal_chain::codec::encode_tx;
use narwhal_chain::consensus::NarwhalBullsharkEngine;
use narwhal_chain::rpc::{
    eth_get_block_by_number, eth_send_raw_transaction, hash_hex, hex_decode, hex_encode,
    parse_hex_u64, quantity_hex, strip_0x, RpcError,
};
use narwhal_chain::store::ChainStore;
use narwhal_chain::types::{ConsensusInput, HybridTx};

fn rpc_tx() -> HybridTx {
    HybridTx {
        hash: [0xab; 32],
        from: [1; 20],
        to: None,
        nonce: [0; 32],
        gas_limit: 30_000,
        max_fee_per_gas: [0; 32],
        max_priority_fee_per_gas: [0; 32],
        value: [0; 32],
        data: vec![1, 2],
        chain_id: 1337,
        sig: Some(vec![0u8; 65]),
        pq_sig: None,
        pq_pubkey: None,
    }
}

#[test]
fn quantities_are_minimal_hex() {
    assert_eq!(quantity_hex(0), b"0x0".to_vec());
    assert_eq!(quantity_hex(1), b"0x1".to_vec());
    assert_eq!(quantity_hex(0x2a), b"0x2a".to_vec());
    assert_eq!(quantity_hex(u64::MAX), b"0xffffffffffffffff".to_vec());
}

#[test]
fn hex_quantities_parse_back() {
    assert_eq!(parse_hex_u64(&b"0".to_vec()), Some(0));
    assert_eq!(parse_hex_u64(&b"2a".to_vec()), Some(42));
    assert_eq!(parse_hex_u64(&b"2A".to_vec()), Some(42));
    assert_eq!(parse_hex_u64(&b"ffffffffffffffff".to_vec()), Some(u64::MAX));
    assert_eq!(parse_hex_u64(&b"".to_vec()), None);
    assert_eq!(parse_hex_u64(&b"12345678123456781".to_vec()), None);
    assert_eq!(parse_hex_u64(&b"xy".to_vec()), None);
}

#[test]
fn strip_0x_only_strips_the_prefix() {
    assert_eq!(strip_0x(&b"0x2a".to_vec()), b"2a".to_vec());
    assert_eq!(strip_0x(&b"2a".to_vec()), b"2a".to_vec());
    assert_eq!(strip_0x(&b"0x".to_vec()), b"".to_vec());
}

#[test]
fn hex_wrappers_round_trip() {
    let bytes = vec![0x00, 0x7f, 0xff, 0x10];
    let enc = hex_encode(&bytes);
    assert_eq!(enc, b"007fff10".to_vec());
    assert_eq!(hex_decode(&enc), Some(bytes));
    assert_eq!(hex_decode(&b"0F".to_vec()), Some(vec![15]));
    assert_eq!(hex_decode(&b"abc".to_vec()), None);
    assert_eq!(hex_decode(&b"zz".to_vec()), None);
}

#[test]
fn hash_hex_spells_all_bytes() {
    let mut h = [0u8; 32];
    h[0] = 0x01;
    h[31] = 0xef;
    let s = hash_hex(&h);
    assert_eq!(s.len(), 2 + 64);
    assert!(s.starts_with(b"0x01"));
    assert!(s.ends_with(b"ef"));
}

#[test]
fn send_raw_transaction_round_trips() {
    let tx = rpc_tx();
    let wire = hex_encode(&encode_tx(&tx));
    let mut request = b"0x".to_vec();
    request.extend_from_slice(&wire);
    let (decoded, hash_answer) = eth_send_raw_transaction(&request).expect("accepted");
    assert_eq!(decoded, tx);
    assert_eq!(hash_answer, hash_hex(&tx.hash));
}

#[test]
fn send_raw_transaction_rejects_bad_hex() {
    assert_eq!(eth_send_raw_transaction(&b"0xzz".to_vec()), Err(RpcError::Malformed));
}

#[test]
fn send_raw_transaction_rejects_trailing_bytes() {
    let tx = rpc_tx();
    let mut bytes = encode_tx(&tx);
    bytes.push(0);
    let wire = hex_encode(&bytes);
    assert_eq!(eth_send_raw_transaction(&wire), Err(RpcError::Malformed));
}

#[test]
fn get_block_by_number_answers_hex_fields() {
    let mut eng = NarwhalBullsharkEngine::new(b"validator-0".to_vec(), 10_000, 100);
    let mut store = ChainStore::new();
    eng.handle_input(ConsensusInput::NewTx(rpc_tx()));
    let mut committed = None;
    for _ in 0..3 {
        if let Some(b) = eng.tick_and_commit(&mut store) {
            committed = Some(b);
        }
    }
    let block = committed.expect("commits");
    let summary = eth_get_block_by_number(&store, 0).expect("present");
    assert_eq!(summary.number_hex, b"0x0".to_vec());
    assert_eq!(summary.hash_hex, hash_hex(&block.header.hash));
    assert_eq!(summary.parent_hash_hex, hash_hex(&[0u8; 32]));
    assert_eq!(summary.tx_hashes_hex.len(), 1);
    assert_eq!(summary.tx_hashes_hex[0], hash_hex(&[0xab; 32]));
    assert!(eth_get_block_by_number(&store, 1).is_none());
}
