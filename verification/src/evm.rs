//! Planning block execution: the per-transaction environment handed to the
//! virtual machine, in block order.

use vstd::prelude::*;
use crate::types::{Block, HybridTx, TxView, clone_bytes};

verus! {

/// The execution environment of one transaction: what the virtual machine is
/// loaded with before it transacts.
#[derive(Debug, PartialEq, Eq)]
pub struct TxPlan {
    pub caller: [u8; 20],
    /// Recipient; absent denotes contract creation.
    pub to: Option<[u8; 20]>,
    pub data: Vec<u8>,
    pub value: [u8; 32],
    pub nonce: [u8; 32],
    pub gas_limit: u64,
    /// The gas price charged: the max fee per gas, as a simplification.
    pub gas_price: [u8; 32],
    pub chain_id: u64,
}

/// Mathematical view of a transaction plan.
pub struct PlanView {
    pub caller: Seq<u8>,
    pub to: Option<Seq<u8>>,
    pub data: Seq<u8>,
    pub value: Seq<u8>,
    pub nonce: Seq<u8>,
    pub gas_limit: u64,
    pub gas_price: Seq<u8>,
    pub chain_id: u64,
}

impl View for TxPlan {
    type V = PlanView;

    open spec fn view(&self) -> PlanView {
        PlanView {
            caller: self.caller@,
            to: crate::types::opt_addr_view(self.to),
            data: self.data@,
            value: self.value@,
            nonce: self.nonce@,
            gas_limit: self.gas_limit,
            gas_price: self.gas_price@,
            chain_id: self.chain_id,
        }
    }
}

impl DeepView for TxPlan {
    type V = PlanView;

    open spec fn deep_view(&self) -> PlanView {
        self.view()
    }
}

/// The plan a transaction maps to under a configured chain identifier.
pub open spec fn plan_of(t: TxView, chain_id: u64) -> PlanView {
    PlanView {
        caller: t.from,
        to: t.to,
        data: t.data,
        value: t.value,
        nonce: t.nonce,
        gas_limit: t.gas_limit,
        gas_price: t.max_fee_per_gas,
        chain_id,
    }
}

/// Plans the execution of a committed block: one environment per
/// transaction, in block order, under the node's chain identifier.
pub fn plan_block(block: &Block, chain_id: u64) -> (r: Vec<TxPlan>)
    ensures
        r.deep_view().len() == block@.txs.len(),
        forall|i: int|
            0 <= i < block@.txs.len() ==> r.deep_view()[i] == plan_of(
                #[trigger] block@.txs[i],
                chain_id,
            ),
{
    let mut r: Vec<TxPlan> = Vec::new();
    let mut i: usize = 0;
    while i < block.txs.len()
        invariant
            i <= block.txs.len(),
            r.len() == i,
            forall|j: int|
                0 <= j < i ==> r.deep_view()[j] == plan_of(#[trigger] block@.txs[j], chain_id),
        decreases block.txs.len() - i,
    {
        let t = &block.txs[i];
        let p = TxPlan {
            caller: t.from,
            to: t.to,
            data: clone_bytes(&t.data),
            value: t.value,
            nonce: t.nonce,
            gas_limit: t.gas_limit,
            gas_price: t.max_fee_per_gas,
            chain_id,
        };
        proof {
            assert(block@.txs[i as int] == block.txs@[i as int]@);
            assert(p@ == plan_of(block@.txs[i as int], chain_id));
        }
        r.push(p);
        i = i + 1;
        assert forall|j: int|
            0 <= j < i implies r.deep_view()[j] == plan_of(
            #[trigger] block@.txs[j],
            chain_id,
        ) by {
            assert(r.deep_view()[j] == r@[j].deep_view());
        }
    }
    r
}

} // verus!
