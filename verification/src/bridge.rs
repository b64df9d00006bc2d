//! The compute half of the bridge layer: what a committed block is announced
//! as to the settlement endpoints.

use vstd::prelude::*;
use crate::types::BlockHeader;
use crate::rpc::{data_hex_spec, hash_hex};

verus! {

/// The announcement of a committed block: its height and `0x`-hex hash.
/// Bridges are told nothing else, and must be idempotent on this pair.
pub struct BridgeAnnouncement {
    pub number: u64,
    pub hash_hex: Vec<u8>,
}

/// Builds the announcement of a committed block.
pub fn announce_block(h: &BlockHeader) -> (r: BridgeAnnouncement)
    ensures
        r.number == h.number,
        r.hash_hex@ == data_hex_spec(h@.hash),
{
    BridgeAnnouncement { number: h.number, hash_hex: hash_hex(&h.hash) }
}

} // verus!
