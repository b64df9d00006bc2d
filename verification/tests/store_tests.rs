use narwhal_chain::codec::{decode_block, encode_block};
use narwhal_chain::store::ChainStore;
use narwhal_chain::types::{Block, BlockHeader, HybridTx};

fn tx_with_hash(h: u8) -> HybridTx {
    HybridTx {
        hash: [h; 32],
        from: [1; 20],
        to: Some([2; 20]),
        nonce: [0; 32],
        gas_limit: 21000,
        max_fee_per_gas: [0; 32],
        max_priority_fee_per_gas: [0; 32],
        value: [0; 32],
        data: Vec::new(),
        chain_id: 1337,
        sig: None,
        pq_sig: None,
        pq_pubkey: None,
    }
}

fn block_at(number: u64, parent: [u8; 32], hash: [u8; 32], txs: Vec<HybridTx>) -> Block {
    Block {
        header: BlockHeader {
            number,
            hash,
            parent_hash: parent,
            state_root: [0; 32],
            tx_root: [0; 32],
            timestamp: 1000 + number,
        },
        txs,
    }
}

#[test]
fn empty_store_reports_genesis_state() {
    let store = ChainStore::new();
    assert_eq!(store.get_head_number(), 0);
    assert!(store.get_head_hash().is_none());
    assert!(store.get_head_header().is_none());
    assert!(store.get_block(0).is_none());
}

#[test]
fn put_block_and_head_are_observable() {
    let mut store = ChainStore::new();
    let b0 = block_at(0, [0; 32], [0xa0; 32], vec![tx_with_hash(1)]);
    store.put_block(&b0);
    store.put_head(0, b0.header.hash);
    assert_eq!(store.get_head_number(), 0);
    assert_eq!(store.get_head_hash(), Some([0xa0; 32]));
    let got = store.get_block(0).expect("present");
    assert_eq!(got, b0);
    let tx = store.get_tx(&[1; 32]).expect("stored");
    assert_eq!(tx.hash, [1; 32]);
    assert!(store.get_tx(&[9; 32]).is_none());
    let head = store.get_head_header().expect("head");
    assert_eq!(head, b0.header);
}

#[test]
fn put_block_twice_changes_nothing() {
    let mut store = ChainStore::new();
    let b0 = block_at(0, [0; 32], [0xa0; 32], vec![tx_with_hash(1), tx_with_hash(2)]);
    store.put_block(&b0);
    store.put_head(0, b0.header.hash);
    store.put_block(&b0);
    assert_eq!(store.get_head_number(), 0);
    assert_eq!(store.get_block(0).expect("present"), b0);
    assert!(store.get_block(1).is_none());
    assert_eq!(store.get_tx(&[1; 32]).expect("stored").hash, [1; 32]);
    assert_eq!(store.get_tx(&[2; 32]).expect("stored").hash, [2; 32]);
}

#[test]
fn chain_grows_in_order() {
    let mut store = ChainStore::new();
    let b0 = block_at(0, [0; 32], [0xa0; 32], Vec::new());
    store.put_block(&b0);
    store.put_head(0, b0.header.hash);
    let b1 = block_at(1, [0xa0; 32], [0xa1; 32], Vec::new());
    store.put_block(&b1);
    store.put_head(1, b1.header.hash);
    assert_eq!(store.get_head_number(), 1);
    assert_eq!(store.get_head_hash(), Some([0xa1; 32]));
    assert_eq!(store.get_block(0).expect("present").header.hash, [0xa0; 32]);
    assert_eq!(store.get_block(1).expect("present").header.parent_hash, [0xa0; 32]);
}

#[test]
fn store_recovers_from_encoded_blocks() {
    let mut store = ChainStore::new();
    let b0 = block_at(0, [0; 32], [0xa0; 32], vec![tx_with_hash(7)]);
    store.put_block(&b0);
    store.put_head(0, b0.header.hash);
    let persisted = encode_block(&b0);

    // A fresh store fed the decoded bytes ends in the same observable state.
    let (reloaded, _) = decode_block(&persisted, 0).expect("decodes");
    let mut recovered = ChainStore::new();
    recovered.put_block(&reloaded);
    recovered.put_head(reloaded.header.number, reloaded.header.hash);
    assert_eq!(recovered.get_head_number(), 0);
    assert_eq!(recovered.get_head_hash(), Some([0xa0; 32]));
    assert_eq!(recovered.get_block(0).expect("present"), b0);
    assert_eq!(recovered.get_tx(&[7; 32]).expect("stored").hash, [7; 32]);
}
