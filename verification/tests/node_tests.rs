use narwhal_chain::bridge::announce_block;
use narwhal_chain::config::NodeConfig;
use narwhal_chain::evm::plan_block;
use narwhal_chain::rpc::hash_hex;
use narwhal_chain::types::{Block, BlockHeader, HybridTx};

fn exec_tx() -> HybridTx {
    HybridTx {
        hash: [0x33; 32],
        from: [0x44; 20],
        to: Some([0x55; 20]),
        nonce: [0x01; 32],
        gas_limit: 90_000,
        max_fee_per_gas: [0x02; 32],
        max_priority_fee_per_gas: [0x03; 32],
        value: [0x04; 32],
        data: vec![0xca, 0xfe],
        chain_id: 1337,
        sig: None,
        pq_sig: None,
        pq_pubkey: None,
    }
}

fn committed_block() -> Block {
    Block {
        header: BlockHeader {
            number: 3,
            hash: [0x77; 32],
            parent_hash: [0x66; 32],
            state_root: [0; 32],
            tx_root: [0x88; 32],
            timestamp: 1_700_000_123,
        },
        txs: vec![exec_tx()],
    }
}

#[test]
fn plans_load_every_field_in_order() {
    let block = committed_block();
    let plans = plan_block(&block, 1337);
    assert_eq!(plans.len(), 1);
    let p = &plans[0];
    assert_eq!(p.caller, [0x44; 20]);
    assert_eq!(p.to, Some([0x55; 20]));
    assert_eq!(p.data, vec![0xca, 0xfe]);
    assert_eq!(p.value, [0x04; 32]);
    assert_eq!(p.nonce, [0x01; 32]);
    assert_eq!(p.gas_limit, 90_000);
    assert_eq!(p.gas_price, [0x02; 32]);
    assert_eq!(p.chain_id, 1337);
}

#[test]
fn contract_creation_has_no_recipient() {
    let mut block = committed_block();
    block.txs[0].to = None;
    let plans = plan_block(&block, 1);
    assert_eq!(plans[0].to, None);
}

#[test]
fn announcements_carry_height_and_hex_hash() {
    let block = committed_block();
    let ann = announce_block(&block.header);
    assert_eq!(ann.number, 3);
    assert_eq!(ann.hash_hex, hash_hex(&[0x77; 32]));
}

#[test]
fn default_config_matches_the_reference() {
    let cfg = NodeConfig::default();
    assert!(cfg.node_key_seed.is_none());
    assert_eq!(cfg.libp2p_listen, "/ip4/0.0.0.0/tcp/7000");
    assert_eq!(cfg.rpc_listen, "0.0.0.0:8545");
    assert_eq!(cfg.rocksdb_path, "data/chain.db");
    assert_eq!(cfg.chain_id, 1337);
    assert_eq!(cfg.target_tps, 10_000);
    assert_eq!(cfg.block_time_ms, 100);
    assert!(cfg.validators.is_empty());
    assert_eq!(cfg.bridges.solana_rpc_url, "https://api.devnet.solana.com");
    assert_eq!(cfg.bridges.sui_rpc_url, "https://fullnode.testnet.sui.io:443");
    assert_eq!(cfg.bridges.aptos_rpc_url, "https://fullnode.testnet.aptoslabs.com/v1");
}
