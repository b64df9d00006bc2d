//! A single-node blockchain core: a Narwhal-style round-indexed DAG of
//! transaction batches, a Bullshark-style deterministic commit rule that
//! materializes blocks, a chain store with a durable head pointer, hybrid
//! post-quantum transaction authentication, and the canonical byte encodings
//! that hashing and signing are computed over.

pub mod types;

pub mod codec;

pub mod hashing;

pub mod crypto;

pub mod store;

pub mod consensus;

pub mod evm;

pub mod rpc;

pub mod bridge;

pub mod config;









