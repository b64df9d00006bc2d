//! Node configuration: identities, endpoints, timings, and the validator
//! set, with the reference defaults.

use vstd::prelude::*;

verus! {

/// One validator of the set: its identity, stake, and hex-encoded
/// post-quantum public key.
pub struct ValidatorConfig {
    pub id: String,
    pub stake: u64,
    pub pq_pubkey_hex: String,
}

/// The outbound bridge endpoints.
pub struct BridgeConfig {
    pub solana_rpc_url: String,
    pub sui_rpc_url: String,
    pub aptos_rpc_url: String,
}

/// The node configuration.
pub struct NodeConfig {
    pub node_key_seed: Option<String>,
    pub libp2p_listen: String,
    /// The RPC listen socket, as `host:port` text.
    pub rpc_listen: String,
    pub rocksdb_path: String,
    pub chain_id: u64,
    pub target_tps: u64,
    pub block_time_ms: u64,
    pub validators: Vec<ValidatorConfig>,
    pub bridges: BridgeConfig,
}

impl Default for NodeConfig {
    /// The reference defaults: chain 1337, a 100 ms round tick sized for the
    /// advisory throughput target, and public test endpoints for the
    /// bridges.
    fn default() -> (r: NodeConfig)
        ensures
            r.node_key_seed is None,
            r.libp2p_listen@ == "/ip4/0.0.0.0/tcp/7000"@,
            r.rpc_listen@ == "0.0.0.0:8545"@,
            r.rocksdb_path@ == "data/chain.db"@,
            r.chain_id == 1337,
            r.target_tps == 10000,
            r.block_time_ms == 100,
            r.validators@.len() == 0,
            r.bridges.solana_rpc_url@ == "https://api.devnet.solana.com"@,
            r.bridges.sui_rpc_url@ == "https://fullnode.testnet.sui.io:443"@,
            r.bridges.aptos_rpc_url@ == "https://fullnode.testnet.aptoslabs.com/v1"@,
    {
        NodeConfig {
            node_key_seed: None,
            libp2p_listen: "/ip4/0.0.0.0/tcp/7000".to_owned(),
            rpc_listen: "0.0.0.0:8545".to_owned(),
            rocksdb_path: "data/chain.db".to_owned(),
            chain_id: 1337,
            target_tps: 10000,
            block_time_ms: 100,
            validators: Vec::new(),
            bridges: BridgeConfig {
                solana_rpc_url: "https://api.devnet.solana.com".to_owned(),
                sui_rpc_url: "https://fullnode.testnet.sui.io:443".to_owned(),
                aptos_rpc_url: "https://fullnode.testnet.aptoslabs.com/v1".to_owned(),
            },
        }
    }
}

} // verus!
