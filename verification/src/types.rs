//! The data model: hybrid transactions, blocks, DAG batches, and the
//! messages exchanged with the consensus engine, together with their
//! mathematical views.

use vstd::prelude::*;

verus! {

/// A transaction carrying both a classical signature slot and an optional
/// post-quantum signature with its public key.
#[derive(Debug, PartialEq, Eq)]
pub struct HybridTx {
    /// Digest of the canonical body serialization.
    pub hash: [u8; 32],
    /// Sender address.
    pub from: [u8; 20],
    /// Recipient; absent denotes contract creation.
    pub to: Option<[u8; 20]>,
    /// 256-bit nonce, big-endian.
    pub nonce: [u8; 32],
    pub gas_limit: u64,
    /// 256-bit max fee per gas, big-endian.
    pub max_fee_per_gas: [u8; 32],
    /// 256-bit max priority fee per gas, big-endian.
    pub max_priority_fee_per_gas: [u8; 32],
    /// 256-bit value, big-endian.
    pub value: [u8; 32],
    /// Opaque call data.
    pub data: Vec<u8>,
    pub chain_id: u64,
    /// Classical ECDSA signature, 65 bytes when present.
    pub sig: Option<Vec<u8>>,
    /// Post-quantum detached signature over the canonical body.
    pub pq_sig: Option<Vec<u8>>,
    /// Post-quantum public key the signature verifies under.
    pub pq_pubkey: Option<Vec<u8>>,
}

/// Mathematical view of a transaction.
pub struct TxView {
    pub hash: Seq<u8>,
    pub from: Seq<u8>,
    pub to: Option<Seq<u8>>,
    pub nonce: Seq<u8>,
    pub gas_limit: u64,
    pub max_fee_per_gas: Seq<u8>,
    pub max_priority_fee_per_gas: Seq<u8>,
    pub value: Seq<u8>,
    pub data: Seq<u8>,
    pub chain_id: u64,
    pub sig: Option<Seq<u8>>,
    pub pq_sig: Option<Seq<u8>>,
    pub pq_pubkey: Option<Seq<u8>>,
}

pub open spec fn opt_view(o: Option<Vec<u8>>) -> Option<Seq<u8>> {
    match o {
        Some(v) => Some(v@),
        None => None,
    }
}

pub open spec fn opt_addr_view(o: Option<[u8; 20]>) -> Option<Seq<u8>> {
    match o {
        Some(a) => Some(a@),
        None => None,
    }
}

impl View for HybridTx {
    type V = TxView;

    open spec fn view(&self) -> TxView {
        TxView {
            hash: self.hash@,
            from: self.from@,
            to: opt_addr_view(self.to),
            nonce: self.nonce@,
            gas_limit: self.gas_limit,
            max_fee_per_gas: self.max_fee_per_gas@,
            max_priority_fee_per_gas: self.max_priority_fee_per_gas@,
            value: self.value@,
            data: self.data@,
            chain_id: self.chain_id,
            sig: opt_view(self.sig),
            pq_sig: opt_view(self.pq_sig),
            pq_pubkey: opt_view(self.pq_pubkey),
        }
    }
}

impl DeepView for HybridTx {
    type V = TxView;

    open spec fn deep_view(&self) -> TxView {
        self.view()
    }
}

impl TxView {
    /// Structural well-formedness: every fixed-width field has its width.
    pub open spec fn wf(self) -> bool {
        &&& self.hash.len() == 32
        &&& self.from.len() == 20
        &&& (self.to matches Some(a) ==> a.len() == 20)
        &&& self.nonce.len() == 32
        &&& self.max_fee_per_gas.len() == 32
        &&& self.max_priority_fee_per_gas.len() == 32
        &&& self.value.len() == 32
    }
}

impl HybridTx {
    /// A field-for-field copy; the view is preserved exactly.
    pub fn duplicate(&self) -> (r: HybridTx)
        ensures
            r@ == self@,
    {
        let r = HybridTx {
            hash: self.hash,
            from: self.from,
            to: self.to,
            nonce: self.nonce,
            gas_limit: self.gas_limit,
            max_fee_per_gas: self.max_fee_per_gas,
            max_priority_fee_per_gas: self.max_priority_fee_per_gas,
            value: self.value,
            data: clone_bytes(&self.data),
            chain_id: self.chain_id,
            sig: clone_opt_bytes(&self.sig),
            pq_sig: clone_opt_bytes(&self.pq_sig),
            pq_pubkey: clone_opt_bytes(&self.pq_pubkey),
        };
        assert(r@ == self@);
        r
    }
}

/// Byte-for-byte copy of a byte vector.
pub fn clone_bytes(v: &Vec<u8>) -> (r: Vec<u8>)
    ensures
        r@ == v@,
{
    let mut out: Vec<u8> = Vec::new();
    let mut i: usize = 0;
    while i < v.len()
        invariant
            i <= v.len(),
            out@ == v@.subrange(0, i as int),
        decreases v.len() - i,
    {
        out.push(v[i]);
        i = i + 1;
        assert(out@ == v@.subrange(0, i as int));
    }
    assert(v@.subrange(0, v@.len() as int) == v@);
    out
}

/// Copy of an optional byte vector.
pub fn clone_opt_bytes(v: &Option<Vec<u8>>) -> (r: Option<Vec<u8>>)
    ensures
        opt_view(r) == opt_view(*v),
{
    match v {
        Some(b) => Some(clone_bytes(b)),
        None => None,
    }
}

/// A block header. The block hash covers the height, the parent hash and the
/// transaction root; the state root and the timestamp ride alongside.
#[derive(Clone, Copy, Debug, PartialEq, Eq)]
pub struct BlockHeader {
    pub number: u64,
    pub hash: [u8; 32],
    pub parent_hash: [u8; 32],
    pub state_root: [u8; 32],
    pub tx_root: [u8; 32],
    pub timestamp: u64,
}

/// Mathematical view of a header.
pub struct HeaderView {
    pub number: u64,
    pub hash: Seq<u8>,
    pub parent_hash: Seq<u8>,
    pub state_root: Seq<u8>,
    pub tx_root: Seq<u8>,
    pub timestamp: u64,
}

impl View for BlockHeader {
    type V = HeaderView;

    open spec fn view(&self) -> HeaderView {
        HeaderView {
            number: self.number,
            hash: self.hash@,
            parent_hash: self.parent_hash@,
            state_root: self.state_root@,
            tx_root: self.tx_root@,
            timestamp: self.timestamp,
        }
    }
}

/// A header plus the ordered transactions it commits.
#[derive(Debug, PartialEq, Eq)]
pub struct Block {
    pub header: BlockHeader,
    pub txs: Vec<HybridTx>,
}

/// Mathematical view of a block.
pub struct BlockView {
    pub header: HeaderView,
    pub txs: Seq<TxView>,
}

impl View for Block {
    type V = BlockView;

    open spec fn view(&self) -> BlockView {
        BlockView { header: self.header@, txs: self.txs.deep_view() }
    }
}

impl DeepView for Block {
    type V = BlockView;

    open spec fn deep_view(&self) -> BlockView {
        self.view()
    }
}

impl Block {
    pub fn duplicate(&self) -> (r: Block)
        ensures
            r@ == self@,
    {
        let r = Block { header: self.header, txs: duplicate_txs(&self.txs) };
        assert(r@ == self@);
        r
    }
}

/// Copy of a transaction list, preserving views element for element.
pub fn duplicate_txs(txs: &Vec<HybridTx>) -> (r: Vec<HybridTx>)
    ensures
        r.deep_view() == txs.deep_view(),
{
    let mut out: Vec<HybridTx> = Vec::new();
    let mut i: usize = 0;
    while i < txs.len()
        invariant
            i <= txs.len(),
            out.len() == i,
            forall|j: int| 0 <= j < i ==> out.deep_view()[j] == #[trigger] txs.deep_view()[j],
        decreases txs.len() - i,
    {
        let e = txs[i].duplicate();
        out.push(e);
        i = i + 1;
        assert forall|j: int| 0 <= j < i implies out.deep_view()[j]
            == #[trigger] txs.deep_view()[j] by {
            assert(out.deep_view()[j] == out@[j].deep_view());
        }
    }
    assert(out.deep_view() =~= txs.deep_view());
    out
}

/// Appends copies of all transactions of `src`, preserving views.
pub fn append_txs(out: &mut Vec<HybridTx>, src: &Vec<HybridTx>)
    ensures
        final(out).deep_view() == old(out).deep_view() + src.deep_view(),
{
    let mut i: usize = 0;
    while i < src.len()
        invariant
            i <= src.len(),
            out.len() == old(out).len() + i,
            forall|j: int|
                0 <= j < old(out).len() ==> out.deep_view()[j] == #[trigger] old(out).deep_view()[j],
            forall|j: int|
                0 <= j < i ==> out.deep_view()[old(out).len() + j] == #[trigger] src.deep_view()[j],
        decreases src.len() - i,
    {
        let e = src[i].duplicate();
        out.push(e);
        i = i + 1;
        assert forall|j: int|
            0 <= j < old(out).len() implies out.deep_view()[j] == #[trigger] old(out).deep_view()[j] by {
            assert(out.deep_view()[j] == out@[j].deep_view());
        }
        assert forall|j: int|
            0 <= j < i implies out.deep_view()[old(out).len() + j] == #[trigger] src.deep_view()[j] by {
            assert(out.deep_view()[old(out).len() + j] == out@[old(out).len() + j].deep_view());
        }
    }
    assert(out.deep_view() =~= old(out).deep_view() + src.deep_view());
}

/// A Narwhal batch: a DAG node carrying the transactions one validator
/// contributed at one round.
#[derive(Debug, PartialEq, Eq)]
pub struct NarwhalBatch {
    /// Opaque 128-bit identifier; also the deterministic ordering key.
    pub id: u128,
    pub round: u64,
    /// Validator identity, as bytes.
    pub author: Vec<u8>,
    /// Identifiers of parent batches, all from the previous round.
    pub parents: Vec<u128>,
    pub txs: Vec<HybridTx>,
}

/// Mathematical view of a batch.
pub struct BatchView {
    pub id: u128,
    pub round: u64,
    pub author: Seq<u8>,
    pub parents: Seq<u128>,
    pub txs: Seq<TxView>,
}

impl View for NarwhalBatch {
    type V = BatchView;

    open spec fn view(&self) -> BatchView {
        BatchView {
            id: self.id,
            round: self.round,
            author: self.author@,
            parents: self.parents@,
            txs: self.txs.deep_view(),
        }
    }
}

impl DeepView for NarwhalBatch {
    type V = BatchView;

    open spec fn deep_view(&self) -> BatchView {
        self.view()
    }
}

/// Events sent into the consensus engine.
#[derive(Debug, PartialEq, Eq)]
pub enum ConsensusInput {
    NewTx(HybridTx),
    NarwhalBatch(NarwhalBatch),
}

/// Mathematical view of a consensus input.
pub enum InputView {
    NewTx(TxView),
    NarwhalBatch(BatchView),
}

impl View for ConsensusInput {
    type V = InputView;

    open spec fn view(&self) -> InputView {
        match self {
            ConsensusInput::NewTx(t) => InputView::NewTx(t@),
            ConsensusInput::NarwhalBatch(b) => InputView::NarwhalBatch(b@),
        }
    }
}

/// Outputs of consensus into the executor and block pipeline.
pub enum ConsensusOutput {
    CommittedBlock(Block),
}

} // verus!
