use narwhal_chain::codec::{
    decode_batch, decode_block, decode_input, decode_tx, encode_batch, encode_block, encode_input,
    encode_tx, encode_u64_into,
};
use narwhal_chain::types::{Block, BlockHeader, ConsensusInput, HybridTx, NarwhalBatch};

fn sample_tx(seed: u8) -> HybridTx {
    HybridTx {
        hash: [seed; 32],
        from: [2; 20],
        to: Some([3; 20]),
        nonce: [0; 32],
        gas_limit: 21000,
        max_fee_per_gas: [1; 32],
        max_priority_fee_per_gas: [0; 32],
        value: [4; 32],
        data: vec![0xde, 0xad, seed],
        chain_id: 1337,
        sig: Some(vec![7u8; 65]),
        pq_sig: Some(vec![8u8; 100]),
        pq_pubkey: Some(vec![9u8; 50]),
    }
}

fn sample_header(number: u64) -> BlockHeader {
    BlockHeader {
        number,
        hash: [0xaa; 32],
        parent_hash: [0xbb; 32],
        state_root: [0; 32],
        tx_root: [0xcc; 32],
        timestamp: 1_700_000_000,
    }
}

#[test]
fn tx_round_trip_full() {
    let tx = sample_tx(1);
    let bytes = encode_tx(&tx);
    let (decoded, end) = decode_tx(&bytes, 0).expect("decodes");
    assert_eq!(end, bytes.len());
    assert_eq!(decoded, tx);
}

#[test]
fn tx_round_trip_minimal() {
    let mut tx = sample_tx(2);
    tx.to = None;
    tx.sig = None;
    tx.pq_sig = None;
    tx.pq_pubkey = None;
    tx.data = Vec::new();
    let bytes = encode_tx(&tx);
    let (decoded, end) = decode_tx(&bytes, 0).expect("decodes");
    assert_eq!(end, bytes.len());
    assert_eq!(decoded, tx);
}

#[test]
fn tx_decode_rejects_truncation() {
    let tx = sample_tx(3);
    let mut bytes = encode_tx(&tx);
    bytes.pop();
    assert!(decode_tx(&bytes, 0).is_none());
}

#[test]
fn block_round_trip() {
    let block = Block { header: sample_header(5), txs: vec![sample_tx(1), sample_tx(2)] };
    let bytes = encode_block(&block);
    let (decoded, end) = decode_block(&bytes, 0).expect("decodes");
    assert_eq!(end, bytes.len());
    assert_eq!(decoded, block);
}

#[test]
fn batch_round_trip() {
    let batch = NarwhalBatch {
        id: 0x0102_0304_0506_0708_090a_0b0c_0d0e_0f10,
        round: 7,
        author: b"validator-0".to_vec(),
        parents: vec![1, 2, 3],
        txs: vec![sample_tx(9)],
    };
    let bytes = encode_batch(&batch);
    let (decoded, end) = decode_batch(&bytes, 0).expect("decodes");
    assert_eq!(end, bytes.len());
    assert_eq!(decoded, batch);
}

#[test]
fn gossip_round_trip_tx() {
    let msg = ConsensusInput::NewTx(sample_tx(4));
    let bytes = encode_input(&msg);
    let decoded = decode_input(&bytes).expect("decodes");
    assert_eq!(decoded, msg);
}

#[test]
fn gossip_round_trip_batch() {
    let msg = ConsensusInput::NarwhalBatch(NarwhalBatch {
        id: 42,
        round: 1,
        author: b"v".to_vec(),
        parents: Vec::new(),
        txs: Vec::new(),
    });
    let bytes = encode_input(&msg);
    let decoded = decode_input(&bytes).expect("decodes");
    assert_eq!(decoded, msg);
}

#[test]
fn gossip_rejects_unknown_tag() {
    let bytes = vec![9u8, 0, 0];
    assert!(decode_input(&bytes).is_none());
}

#[test]
fn u64_encoding_is_big_endian() {
    let mut out = Vec::new();
    encode_u64_into(&mut out, 0x0102_0304_0506_0708);
    assert_eq!(out, vec![1, 2, 3, 4, 5, 6, 7, 8]);
}
