use narwhal_chain::codec::encode_tx_body;
use narwhal_chain::consensus::{InputOutcome, NarwhalBullsharkEngine};
use narwhal_chain::crypto::{sign_pq_message, CryptoError, PqKeypair};
use narwhal_chain::rpc::eth_block_number;
use narwhal_chain::store::ChainStore;
use narwhal_chain::types::{ConsensusInput, HybridTx, NarwhalBatch};
use sha2::Digest;

fn engine() -> NarwhalBullsharkEngine {
    NarwhalBullsharkEngine::new(b"validator-0".to_vec(), 10_000, 100)
}

fn tx_with_hash(h: u8) -> HybridTx {
    HybridTx {
        hash: [h; 32],
        from: [1; 20],
        to: Some([2; 20]),
        nonce: [0; 32],
        gas_limit: 21000,
        max_fee_per_gas: [0; 32],
        max_priority_fee_per_gas: [0; 32],
        value: [0; 32],
        data: Vec::new(),
        chain_id: 1337,
        sig: Some(vec![0u8; 65]),
        pq_sig: None,
        pq_pubkey: None,
    }
}

fn batch(id: u128, round: u64, txs: Vec<HybridTx>) -> NarwhalBatch {
    NarwhalBatch { id, round, author: b"remote".to_vec(), parents: Vec::new(), txs }
}

#[test]
fn empty_rounds_commit_nothing() {
    let mut eng = engine();
    let mut store = ChainStore::new();
    for _ in 0..4 {
        let committed = eng.tick_and_commit(&mut store);
        assert!(committed.is_none());
    }
    assert_eq!(eng.current_round(), 4);
    assert_eq!(store.get_head_number(), 0);
    assert!(store.get_head_header().is_none());
    assert_eq!(eth_block_number(&store), b"0x0".to_vec());
}

#[test]
fn single_transaction_commits_at_height_zero() {
    let mut eng = engine();
    let mut store = ChainStore::new();
    let tx = tx_with_hash(0x5a);
    let outcome = eng.handle_input(ConsensusInput::NewTx(tx));
    assert!(matches!(outcome, InputOutcome::TxAdmitted(_)));
    let mut committed = None;
    for _ in 0..3 {
        if let Some(b) = eng.tick_and_commit(&mut store) {
            committed = Some(b);
        }
    }
    let block = committed.expect("a block commits once the round matures");
    assert_eq!(block.header.number, 0);
    assert_eq!(block.header.parent_hash, [0; 32]);
    assert_eq!(block.txs.len(), 1);
    assert_eq!(block.txs[0].hash, [0x5a; 32]);
    // The store advanced its head to the commit.
    assert_eq!(store.get_head_number(), 0);
    assert_eq!(store.get_head_hash(), Some(block.header.hash));
    assert_eq!(store.get_block(0).expect("persisted").header.hash, block.header.hash);
    assert_eq!(store.get_tx(&[0x5a; 32]).expect("persisted").hash, [0x5a; 32]);
}

#[test]
fn block_hashes_follow_the_digest_rule() {
    let mut eng = engine();
    let mut store = ChainStore::new();
    eng.handle_input(ConsensusInput::NewTx(tx_with_hash(0x5b)));
    let mut committed = None;
    for _ in 0..3 {
        if let Some(b) = eng.tick_and_commit(&mut store) {
            committed = Some(b);
        }
    }
    let block = committed.expect("commits");
    // tx_root = SHA256(concat of tx hashes)
    let mut hasher = sha2::Sha256::new();
    for tx in &block.txs {
        hasher.update(tx.hash);
    }
    let expected_root: [u8; 32] = hasher.finalize().into();
    assert_eq!(block.header.tx_root, expected_root);
    // hash = SHA256(number.be8 || parent_hash || tx_root)
    let mut hasher = sha2::Sha256::new();
    hasher.update(block.header.number.to_be_bytes());
    hasher.update(block.header.parent_hash);
    hasher.update(block.header.tx_root);
    let expected_hash: [u8; 32] = hasher.finalize().into();
    assert_eq!(block.header.hash, expected_hash);
    assert_eq!(block.header.state_root, [0; 32]);
}

#[test]
fn two_batches_commit_in_identifier_order() {
    let mut eng = engine();
    let mut store = ChainStore::new();
    let a = batch(1, 1, vec![tx_with_hash(0xa1), tx_with_hash(0xa2)]);
    let b = batch(2, 1, vec![tx_with_hash(0xb1)]);
    // Arrival order is reversed; the commit order is by identifier.
    assert!(matches!(eng.handle_input(ConsensusInput::NarwhalBatch(b)), InputOutcome::BatchAccepted));
    assert!(matches!(eng.handle_input(ConsensusInput::NarwhalBatch(a)), InputOutcome::BatchAccepted));
    let mut committed = None;
    for _ in 0..3 {
        if let Some(blk) = eng.tick_and_commit(&mut store) {
            committed = Some(blk);
        }
    }
    let block = committed.expect("round one commits");
    let hashes: Vec<[u8; 32]> = block.txs.iter().map(|t| t.hash).collect();
    assert_eq!(hashes, vec![[0xa1; 32], [0xa2; 32], [0xb1; 32]]);
}

#[test]
fn commit_is_deterministic_across_arrival_orders() {
    let mk = |first: u128, second: u128| {
        let mut eng = engine();
        let store = ChainStore::new();
        eng.handle_input(ConsensusInput::NarwhalBatch(batch(first, 1, vec![tx_with_hash(first as u8)])));
        eng.handle_input(ConsensusInput::NarwhalBatch(batch(second, 1, vec![tx_with_hash(second as u8)])));
        let mut s = store;
        eng.tick_and_commit(&mut s);
        eng.tick_and_commit(&mut s);
        eng.tick_and_commit(&mut s);
        // Re-run the commit rule at a fixed instant for a byte-level compare.
        let blk = eng.bullshark_commit(&ChainStore::new(), 12345).expect("commits");
        narwhal_chain::codec::encode_block(&blk)
    };
    let one = mk(7, 8);
    let other = mk(8, 7);
    assert_eq!(one, other);
}

#[test]
fn duplicate_batch_identifiers_are_dropped() {
    let mut eng = engine();
    let b1 = batch(5, 1, vec![tx_with_hash(1)]);
    let b2 = batch(5, 1, vec![tx_with_hash(2)]);
    assert!(matches!(eng.handle_input(ConsensusInput::NarwhalBatch(b1)), InputOutcome::BatchAccepted));
    assert!(matches!(eng.handle_input(ConsensusInput::NarwhalBatch(b2)), InputOutcome::BatchRejected));
}

#[test]
fn far_future_batches_are_dropped() {
    let mut eng = engine();
    let b = batch(5, 9, Vec::new());
    assert!(matches!(eng.handle_input(ConsensusInput::NarwhalBatch(b)), InputOutcome::BatchRejected));
}

#[test]
fn unresolvable_parents_are_rejected() {
    let mut eng = engine();
    let mut orphan = batch(5, 1, Vec::new());
    orphan.parents = vec![77];
    assert!(matches!(
        eng.handle_input(ConsensusInput::NarwhalBatch(orphan)),
        InputOutcome::BatchRejected
    ));
}

#[test]
fn chain_links_across_commits() {
    let mut eng = engine();
    let mut store = ChainStore::new();
    eng.handle_input(ConsensusInput::NewTx(tx_with_hash(1)));
    let mut blocks = Vec::new();
    for i in 0..8 {
        if let Some(b) = eng.tick_and_commit(&mut store) {
            blocks.push(b);
        }
        if i == 3 {
            eng.handle_input(ConsensusInput::NewTx(tx_with_hash(2)));
        }
    }
    assert!(blocks.len() >= 2, "two heights commit");
    assert_eq!(blocks[0].header.number, 0);
    assert_eq!(blocks[1].header.number, 1);
    assert_eq!(blocks[1].header.parent_hash, blocks[0].header.hash);
    assert_eq!(store.get_head_number(), 1);
}

#[test]
fn failing_pq_verdict_is_advisory() {
    let mut eng = engine();
    let mut store = ChainStore::new();
    let keys = PqKeypair::generate();
    let mut tx = tx_with_hash(0x6c);
    let body = encode_tx_body(&tx);
    let mut sig = sign_pq_message(&keys.secret, &body);
    sig.swap(0, 1);
    sig[2] ^= 0x55;
    tx.pq_sig = Some(sig);
    tx.pq_pubkey = Some(keys.public.clone());
    // The verdict reports the failure, yet the transaction is admitted.
    let outcome = eng.handle_input(ConsensusInput::NewTx(tx));
    assert!(matches!(
        outcome,
        InputOutcome::TxAdmitted(Err(CryptoError::PqVerifyFailed))
    ));
    let mut committed = None;
    for _ in 0..3 {
        if let Some(b) = eng.tick_and_commit(&mut store) {
            committed = Some(b);
        }
    }
    let block = committed.expect("commits regardless of the advisory verdict");
    assert_eq!(block.txs[0].hash, [0x6c; 32]);
}
