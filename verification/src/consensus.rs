//! The consensus engine: a round-indexed DAG of batches fed by transactions
//! and remote batches, and the Bullshark-style commit rule that turns a
//! committed round into a block.
//!
//! Every DAG round is kept strictly sorted by batch identifier and free of
//! duplicate identifiers, so the commit order is deterministic: validators
//! holding the same batches commit byte-identical blocks.

use vstd::prelude::*;
use crate::types::{
    Block, BlockHeader, BlockView, BatchView, ConsensusInput, HeaderView, HybridTx, InputView,
    NarwhalBatch, TxView,
};
use crate::store::{ChainStore, StoreView, put_block_spec, put_block_pre, extends_chain};
use crate::hashing::{block_hash_of, compute_block_hash, compute_tx_root, tx_root_of};
use crate::crypto::{CryptoError, verify_pq_spec, verify_pq_tx};

verus! {

/// Mathematical view of the engine state.
pub struct EngineView {
    pub current_round: u64,
    pub validator_id: Seq<u8>,
    pub pending_txs: Seq<TxView>,
    /// The DAG: round `r`'s batches stand at index `r`.
    pub dag: Seq<Seq<BatchView>>,
}

/// Whether a round's batches are strictly sorted by identifier (and hence
/// free of duplicates).
pub open spec fn round_sorted(s: Seq<BatchView>) -> bool {
    forall|i: int, j: int| 0 <= i < j < s.len() ==> s[i].id < s[j].id
}

/// Whether a batch with the given identifier stands in a round.
pub open spec fn has_id(s: Seq<BatchView>, id: u128) -> bool {
    exists|i: int| 0 <= i < s.len() && s[i].id == id
}

/// The identifiers of a round's batches, in order.
pub open spec fn ids_of(s: Seq<BatchView>) -> Seq<u128> {
    Seq::new(s.len(), |i: int| s[i].id)
}

impl EngineView {
    /// Structural well-formedness: the DAG covers rounds `0 ..= current + 1`,
    /// every batch sits in its own round, and rounds are strictly sorted.
    pub open spec fn wf(self) -> bool {
        &&& self.dag.len() == self.current_round as int + 2
        &&& forall|r: int, i: int|
            0 <= r < self.dag.len() && 0 <= i < self.dag[r].len()
                ==> (#[trigger] self.dag[r][i]).round == r
        &&& forall|r: int| 0 <= r < self.dag.len() ==> round_sorted(#[trigger] self.dag[r])
    }
}

/// Insertion into a strictly sorted round, by identifier.
pub open spec fn insert_sorted_spec(s: Seq<BatchView>, b: BatchView) -> Seq<BatchView>
    decreases s.len(),
{
    if s.len() == 0 {
        seq![b]
    } else if b.id < s.first().id {
        seq![b] + s
    } else {
        seq![s.first()] + insert_sorted_spec(s.drop_first(), b)
    }
}

/// Positional form of sorted insertion: inserting before the first larger
/// identifier.
pub proof fn lemma_insert_sorted_at(s: Seq<BatchView>, b: BatchView, pos: int)
    requires
        0 <= pos <= s.len(),
        forall|i: int| 0 <= i < pos ==> (#[trigger] s[i]).id < b.id,
        forall|i: int| pos <= i < s.len() ==> (#[trigger] s[i]).id > b.id,
    ensures
        insert_sorted_spec(s, b) == s.insert(pos, b),
    decreases s.len(),
{
    if s.len() == 0 {
        assert(insert_sorted_spec(s, b) =~= s.insert(0, b));
    } else if pos == 0 {
        assert(s[0].id > b.id);
        assert(b.id < s.first().id);
        assert(seq![b] + s =~= s.insert(0, b));
    } else {
        assert(s[0].id < b.id);
        let rest = s.drop_first();
        assert forall|i: int| 0 <= i < pos - 1 implies (#[trigger] rest[i]).id < b.id by {
            assert(rest[i] == s[i + 1]);
        }
        assert forall|i: int| pos - 1 <= i < rest.len() implies (#[trigger] rest[i]).id > b.id by {
            assert(rest[i] == s[i + 1]);
        }
        lemma_insert_sorted_at(rest, b, pos - 1);
        assert(seq![s.first()] + rest.insert(pos - 1, b) =~= s.insert(pos, b));
    }
}

/// Whether a remote batch is accepted into the DAG: it must belong to a
/// round the DAG covers, carry no parents at round zero, carry only parents
/// that resolve in the previous round, and carry a fresh identifier.
pub open spec fn batch_ok(e: EngineView, b: BatchView) -> bool {
    &&& (b.round as int) < e.dag.len()
    &&& (b.round == 0 ==> b.parents.len() == 0)
    &&& (b.round > 0 ==> forall|k: int|
        0 <= k < b.parents.len() ==> has_id(e.dag[b.round - 1], #[trigger] b.parents[k]))
    &&& !has_id(e.dag[b.round as int], b.id)
}

/// The engine after admitting a transaction into the mempool.
pub open spec fn push_tx_spec(e: EngineView, t: TxView) -> EngineView {
    EngineView { pending_txs: e.pending_txs.push(t), ..e }
}

/// The engine after inserting an accepted batch into its round.
pub open spec fn insert_batch_spec(e: EngineView, b: BatchView) -> EngineView {
    EngineView {
        dag: e.dag.update(b.round as int, insert_sorted_spec(e.dag[b.round as int], b)),
        ..e
    }
}

/// What the engine reports for one input message.
pub enum InputOutcome {
    /// The transaction was admitted to the mempool; the advisory
    /// post-quantum verdict rides along.
    TxAdmitted(Result<(), CryptoError>),
    /// The batch was inserted into the DAG.
    BatchAccepted,
    /// The batch was dropped: uncovered round, unresolvable parents, or a
    /// duplicate identifier.
    BatchRejected,
}

/// The transactions of a round's batches, concatenated in batch order.
pub open spec fn concat_batch_txs(s: Seq<BatchView>) -> Seq<TxView>
    decreases s.len(),
{
    if s.len() == 0 {
        Seq::empty()
    } else {
        s.first().txs + concat_batch_txs(s.drop_first())
    }
}

pub proof fn lemma_concat_batch_txs_append(a: Seq<BatchView>, b: Seq<BatchView>)
    ensures
        concat_batch_txs(a + b) == concat_batch_txs(a) + concat_batch_txs(b),
    decreases a.len(),
{
    if a.len() == 0 {
        assert(a + b =~= b);
        assert(concat_batch_txs(a) + concat_batch_txs(b) =~= concat_batch_txs(b));
    } else {
        assert((a + b).drop_first() =~= a.drop_first() + b);
        lemma_concat_batch_txs_append(a.drop_first(), b);
        assert(concat_batch_txs(a + b) =~= concat_batch_txs(a) + concat_batch_txs(b));
    }
}

/// The all-zero word that stands in for absent hashes and state roots.
pub open spec fn zero32() -> Seq<u8> {
    Seq::new(32, |i: int| 0u8)
}

/// The header of the chain head as the store views it.
pub open spec fn head_header_of(s: StoreView) -> Option<HeaderView> {
    match s.head {
        None => None,
        Some((n, h)) => Some(s.blocks[n as int].header),
    }
}

/// The commit rule. For a target round `current_round - 2`: nothing before
/// round three, nothing from an empty round; otherwise the round's batches
/// in identifier order yield the transaction list, and the block links to
/// the head with the prescribed transaction root and block hash.
pub open spec fn commit_spec(e: EngineView, head: Option<HeaderView>, ts: u64) -> Option<
    BlockView,
> {
    if e.current_round < 3 {
        None
    } else {
        let batches = e.dag[e.current_round - 2];
        if batches.len() == 0 {
            None
        } else {
            let txs = concat_batch_txs(batches);
            let number = match head {
                None => 0u64,
                Some(h) => (h.number + 1) as u64,
            };
            let parent_hash = match head {
                None => zero32(),
                Some(h) => h.hash,
            };
            let tx_root = tx_root_of(txs);
            Some(
                BlockView {
                    header: HeaderView {
                        number,
                        hash: block_hash_of(number, parent_hash, tx_root),
                        parent_hash,
                        state_root: zero32(),
                        tx_root,
                        timestamp: ts,
                    },
                    txs,
                },
            )
        }
    }
}

/// A Narwhal mempool DAG with a Bullshark-style commit rule.
pub struct NarwhalBullsharkEngine {
    validator_id: Vec<u8>,
    target_tps: u64,
    block_time_ms: u64,
    current_round: u64,
    dag: Vec<Vec<NarwhalBatch>>,
    pending_txs: Vec<HybridTx>,
}

impl View for NarwhalBullsharkEngine {
    type V = EngineView;

    closed spec fn view(&self) -> EngineView {
        EngineView {
            current_round: self.current_round,
            validator_id: self.validator_id@,
            pending_txs: self.pending_txs.deep_view(),
            dag: self.dag.deep_view(),
        }
    }
}

/// Relies on uuid::Uuid::new_v4: a freshly generated random 128-bit
/// identifier. Nothing is promised of its value.
#[verifier::external_body]
fn fresh_batch_id() -> (r: u128) {
    uuid::Uuid::new_v4().as_u128()
}

/// Relies on std::time::SystemTime::now: the wall-clock seconds since the
/// Unix epoch. Nothing is promised of its value.
#[verifier::external_body]
fn unix_now() -> (r: u64) {
    match std::time::SystemTime::now().duration_since(std::time::SystemTime::UNIX_EPOCH) {
        Ok(d) => d.as_secs(),
        Err(_) => 0,
    }
}

impl NarwhalBullsharkEngine {
    /// A fresh engine at round zero with an empty mempool and an empty DAG.
    pub fn new(validator_id: Vec<u8>, target_tps: u64, block_time_ms: u64) -> (r:
        NarwhalBullsharkEngine)
        ensures
            r@.current_round == 0,
            r@.validator_id == validator_id@,
            r@.pending_txs.len() == 0,
            r@.wf(),
            forall|rr: int| 0 <= rr < r@.dag.len() ==> (#[trigger] r@.dag[rr]).len() == 0,
    {
        let mut dag: Vec<Vec<NarwhalBatch>> = Vec::new();
        dag.push(Vec::new());
        dag.push(Vec::new());
        let r = NarwhalBullsharkEngine {
            validator_id,
            target_tps,
            block_time_ms,
            current_round: 0,
            dag,
            pending_txs: Vec::new(),
        };
        proof {
            assert(r@.pending_txs =~= Seq::<TxView>::empty());
            assert(r@.dag.len() == 2);
            assert(r@.dag[0] =~= Seq::<BatchView>::empty());
            assert(r@.dag[1] =~= Seq::<BatchView>::empty());
        }
        r
    }

    /// The configured target throughput, in transactions per second.
    pub fn target_tps(&self) -> u64 {
        self.target_tps
    }

    /// The configured round tick period, in milliseconds.
    pub fn block_time_ms(&self) -> u64 {
        self.block_time_ms
    }

    /// The round the engine is currently at.
    pub fn current_round(&self) -> (r: u64)
        ensures
            r == self@.current_round,
    {
        self.current_round
    }

    /// Handles one input message. A transaction is admitted to the mempool
    /// whatever its advisory post-quantum verdict; a batch is inserted into
    /// its round exactly when `batch_ok` accepts it.
    pub fn handle_input(&mut self, input: ConsensusInput) -> (r: InputOutcome)
        requires
            old(self)@.wf(),
        ensures
            final(self)@.wf(),
            input@ matches InputView::NewTx(t) ==> final(self)@ == push_tx_spec(old(self)@, t),
            input@ matches InputView::NewTx(t) ==> (r matches InputOutcome::TxAdmitted(v) && v == verify_pq_spec(t)),
            input@ matches InputView::NarwhalBatch(b) ==> (if batch_ok(old(self)@, b) { final(self)@ == insert_batch_spec(old(self)@, b) && r is BatchAccepted } else { final(self)@ == old(self)@ && r is BatchRejected }),
    {
        match input {
            ConsensusInput::NewTx(tx) => {
                let verdict = verify_pq_tx(&tx);
                self.pending_txs.push(tx);
                proof {
                    assert(self@.pending_txs =~= old(self)@.pending_txs.push(
                        input@->NewTx_0,
                    ));
                    assert(self@ =~= push_tx_spec(old(self)@, input@->NewTx_0));
                }
                InputOutcome::TxAdmitted(verdict)
            },
            ConsensusInput::NarwhalBatch(batch) => self.insert_remote_batch(batch),
        }
    }

    /// Inserts a remote batch into the DAG when `batch_ok` accepts it.
    fn insert_remote_batch(&mut self, batch: NarwhalBatch) -> (r: InputOutcome)
        requires
            old(self)@.wf(),
        ensures
            final(self)@.wf(),
            batch_ok(old(self)@, batch@) ==> final(self)@ == insert_batch_spec(old(self)@, batch@) && r is BatchAccepted,
            !batch_ok(old(self)@, batch@) ==> final(self)@ == old(self)@ && r is BatchRejected,
    {
        let round = batch.round;
        if round >= self.dag.len() as u64 {
            return InputOutcome::BatchRejected;
        }
        if round == 0 {
            if batch.parents.len() > 0 {
                return InputOutcome::BatchRejected;
            }
        } else {
            // Every parent must resolve in the previous round.
            let mut k: usize = 0;
            while k < batch.parents.len()
                invariant
                    k <= batch.parents.len(),
                    old(self)@.wf(),
                    self@ == old(self)@,
                    round >= 1,
                    round == batch@.round,
                    (round as int) < self@.dag.len(),
                    batch@.parents == batch.parents@,
                    forall|kk: int|
                        0 <= kk < k ==> has_id(
                            self@.dag[round - 1],
                            #[trigger] batch@.parents[kk],
                        ),
                decreases batch.parents.len() - k,
            {
                if !self.round_has_id(round - 1, batch.parents[k]) {
                    proof {
                        assert(!has_id(self@.dag[round - 1], batch@.parents[k as int]));
                        assert(batch@.round == round);
                        assert((k as int) < batch@.parents.len());
                        assert(!(forall|kk: int|
                            0 <= kk < batch@.parents.len() ==> has_id(
                                old(self)@.dag[batch@.round - 1],
                                #[trigger] batch@.parents[kk],
                            )));
                        assert(!batch_ok(old(self)@, batch@));
                    }
                    return InputOutcome::BatchRejected;
                }
                k = k + 1;
            }
        }
        if self.round_has_id(round, batch.id) {
            assert(!batch_ok(old(self)@, batch@));
            return InputOutcome::BatchRejected;
        }
        assert(batch_ok(old(self)@, batch@));
        self.insert_batch_sorted(batch);
        InputOutcome::BatchAccepted
    }

    /// Whether a round already holds a batch with the given identifier.
    fn round_has_id(&self, round: u64, id: u128) -> (r: bool)
        requires
            (round as int) < self@.dag.len(),
        ensures
            r == has_id(self@.dag[round as int], id),
    {
        let dlen: usize = self.dag.len();
        proof {
            assert(self@.dag.len() == dlen as int);
            assert(round as usize as int == round as int);
        }
        let ri = round as usize;
        let slot = &self.dag[ri];
        proof {
            assert(slot.deep_view() == self@.dag[round as int]);
        }
        let mut i: usize = 0;
        while i < slot.len()
            invariant
                i <= slot.len(),
                slot.deep_view() == self@.dag[round as int],
                forall|j: int| 0 <= j < i ==> (#[trigger] slot.deep_view()[j]).id != id,
            decreases slot.len() - i,
        {
            if slot[i].id == id {
                assert(slot.deep_view()[i as int].id == id);
                return true;
            }
            assert(slot.deep_view()[i as int].id != id) by {
                assert(slot.deep_view()[i as int] == slot@[i as int]@);
            }
            i = i + 1;
        }
        false
    }

    /// Inserts a batch with a fresh identifier into its round, keeping the
    /// round strictly sorted.
    fn insert_batch_sorted(&mut self, batch: NarwhalBatch)
        requires
            old(self)@.wf(),
            (batch.round as int) < old(self)@.dag.len(),
            batch@.round == batch.round,
            !has_id(old(self)@.dag[batch.round as int], batch@.id),
        ensures
            final(self)@ == insert_batch_spec(old(self)@, batch@),
            final(self)@.wf(),
    {
        let round = batch.round;
        let dlen: usize = self.dag.len();
        proof {
            assert(self@.dag.len() == dlen as int);
            assert(round as usize as int == round as int);
        }
        let ri = round as usize;
        let ghost slot0 = self@.dag[round as int];
        let slot = &self.dag[ri];
        proof {
            assert(slot.deep_view() == slot0);
            assert(round_sorted(slot0));
        }
        let mut pos: usize = 0;
        while pos < slot.len() && slot[pos].id < batch.id
            invariant
                pos <= slot.len(),
                slot.deep_view() == slot0,
                !has_id(slot0, batch@.id),
                round_sorted(slot0),
                forall|j: int| 0 <= j < pos ==> (#[trigger] slot0[j]).id < batch@.id,
            decreases slot.len() - pos,
        {
            proof {
                assert(slot0[pos as int] == slot@[pos as int]@);
            }
            pos = pos + 1;
        }
        proof {
            assert forall|j: int| pos <= j < slot0.len() implies (#[trigger] slot0[j]).id
                > batch@.id by {
                assert(slot0[pos as int] == slot@[pos as int]@);
                assert(slot0[pos as int].id != batch@.id);
                assert(slot0[pos as int].id >= batch@.id);
                if j > pos {
                    assert(slot0[pos as int].id < slot0[j].id);
                }
            }
            lemma_insert_sorted_at(slot0, batch@, pos as int);
        }
        let slot_mut = &mut self.dag[ri];
        slot_mut.insert(pos, batch);
        proof {
            assert(self.dag@[ri as int].deep_view() =~= slot0.insert(pos as int, batch@));
            assert(self@.dag =~= old(self)@.dag.update(
                round as int,
                insert_sorted_spec(slot0, batch@),
            ));
            assert(self@ =~= insert_batch_spec(old(self)@, batch@));
            let newslot = insert_sorted_spec(slot0, batch@);
            assert(newslot == slot0.insert(pos as int, batch@));
            assert forall|i: int, j: int| 0 <= i < j < newslot.len() implies newslot[i].id
                < newslot[j].id by {
                assert(newslot[i] == if i < pos {
                    slot0[i]
                } else if i == pos {
                    batch@
                } else {
                    slot0[i - 1]
                });
                assert(newslot[j] == if j < pos {
                    slot0[j]
                } else if j == pos {
                    batch@
                } else {
                    slot0[j - 1]
                });
            }
            assert(round_sorted(newslot));
        }
    }
}

/// The view of an optional block result.
pub open spec fn opt_block_view(r: Option<Block>) -> Option<BlockView> {
    match r {
        Some(b) => Some(b@),
        None => None,
    }
}

/// The local batch a tick builds: authored by this validator at the new
/// round, with the whole mempool and the previous round's batches as
/// parents.
pub open spec fn local_batch_spec(e: EngineView, id: u128) -> BatchView {
    BatchView {
        id,
        round: (e.current_round + 1) as u64,
        author: e.validator_id,
        parents: ids_of(e.dag[e.current_round as int]),
        txs: e.pending_txs,
    }
}

/// The engine after one round tick: the round advances, the DAG grows a
/// slot, and a non-empty mempool drains into a local batch (dropped in the
/// vanishing case that the fresh identifier collides).
pub open spec fn tick_spec(e: EngineView, id: u128) -> EngineView {
    let e1 = EngineView {
        current_round: (e.current_round + 1) as u64,
        validator_id: e.validator_id,
        pending_txs: e.pending_txs,
        dag: e.dag.push(Seq::empty()),
    };
    if e.pending_txs.len() == 0 {
        e1
    } else {
        let b = local_batch_spec(e, id);
        let e2 = EngineView { pending_txs: Seq::empty(), ..e1 };
        if has_id(e2.dag[b.round as int], id) {
            e2
        } else {
            insert_batch_spec(e2, b)
        }
    }
}

/// The store after a commit: the block and its transactions persisted, then
/// the head advanced to it.
pub open spec fn store_after_commit(s: StoreView, rv: Option<BlockView>) -> StoreView {
    match rv {
        None => s,
        Some(b) => {
            let s1 = put_block_spec(s, b);
            StoreView { head: Some((b.header.number, b.header.hash)), ..s1 }
        },
    }
}

/// One tick relates the old and new engine and store: the engine takes a
/// `tick_spec` step with some fresh identifier, the commit rule decides the
/// result at some wall-clock instant, and the store absorbs the commit.
pub open spec fn tick_rel(
    e0: EngineView,
    s0: StoreView,
    e1: EngineView,
    s1: StoreView,
    rv: Option<BlockView>,
    id: u128,
    ts: u64,
) -> bool {
    &&& e1 == tick_spec(e0, id)
    &&& rv == commit_spec(e1, head_header_of(s0), ts)
    &&& s1 == store_after_commit(s0, rv)
}

impl NarwhalBullsharkEngine {
    /// Drains the mempool into a fresh batch at the given round, with the
    /// previous round's batches as parents.
    fn build_local_batch(&mut self, round: u64, id: u128) -> (r: NarwhalBatch)
        requires
            old(self)@.wf(),
            round == old(self)@.current_round,
            round >= 1,
        ensures
            final(self)@ == (EngineView { pending_txs: Seq::empty(), ..old(self)@ }),
            final(self)@.wf(),
            r@ == (BatchView {
                id,
                round,
                author: old(self)@.validator_id,
                parents: ids_of(old(self)@.dag[round - 1]),
                txs: old(self)@.pending_txs,
            }),
    {
        let txs = crate::types::duplicate_txs(&self.pending_txs);
        self.pending_txs = Vec::new();
        let author = crate::types::clone_bytes(&self.validator_id);
        let dlen: usize = self.dag.len();
        proof {
            assert(self@.dag.len() == dlen as int);
            assert(((round - 1) as u64) as usize as int == round - 1);
        }
        let pi = (round - 1) as usize;
        let slot = &self.dag[pi];
        proof {
            assert(slot.deep_view() == self@.dag[round - 1]);
        }
        let mut parents: Vec<u128> = Vec::new();
        let mut i: usize = 0;
        while i < slot.len()
            invariant
                i <= slot.len(),
                slot.deep_view() == old(self)@.dag[round - 1],
                parents@.len() == i,
                forall|j: int| 0 <= j < i ==> parents@[j] == slot.deep_view()[j].id,
            decreases slot.len() - i,
        {
            let b = &slot[i];
            parents.push(b.id);
            proof {
                assert(slot.deep_view()[i as int] == slot@[i as int]@);
            }
            i = i + 1;
        }
        proof {
            assert(parents@ =~= ids_of(old(self)@.dag[round - 1]));
            assert(self@.pending_txs =~= Seq::<TxView>::empty());
            assert(self@ =~= (EngineView { pending_txs: Seq::empty(), ..old(self)@ }));
        }
        let r = NarwhalBatch { id, round, author, parents, txs };
        proof {
            assert(r@ =~= (BatchView {
                id,
                round,
                author: old(self)@.validator_id,
                parents: ids_of(old(self)@.dag[round - 1]),
                txs: old(self)@.pending_txs,
            }));
        }
        r
    }

    /// The commit rule, executable: commits round `current_round - 2` from
    /// the DAG against the store's head, materializing the block with its
    /// transaction root and block hash.
    pub fn bullshark_commit(&self, store: &ChainStore, now_ts: u64) -> (r: Option<Block>)
        requires
            self@.wf(),
            store@.wf(),
            (head_header_of(store@) matches Some(h) ==> h.number < 0xffff_ffff_ffff_ffff),
        ensures
            match r {
                Some(b) => commit_spec(self@, head_header_of(store@), now_ts) == Some(b@),
                None => commit_spec(self@, head_header_of(store@), now_ts) is None,
            },
    {
        if self.current_round < 3 {
            return None;
        }
        let cr = self.current_round - 2;
        let dlen: usize = self.dag.len();
        proof {
            assert(self@.dag.len() == dlen as int);
            assert(cr as usize as int == cr as int);
        }
        let ci = cr as usize;
        let slot = &self.dag[ci];
        let ghost gslot = self@.dag[self@.current_round - 2];
        proof {
            assert(slot.deep_view() == gslot);
        }
        if slot.len() == 0 {
            proof {
                assert(gslot.len() == 0);
            }
            return None;
        }
        let mut all_txs: Vec<HybridTx> = Vec::new();
        proof {
            assert(all_txs.deep_view() =~= Seq::<TxView>::empty());
            assert(concat_batch_txs(gslot.take(0)) =~= Seq::<TxView>::empty()) by {
                assert(gslot.take(0) =~= Seq::<BatchView>::empty());
            }
        }
        let mut i: usize = 0;
        while i < slot.len()
            invariant
                i <= slot.len(),
                slot.deep_view() == gslot,
                all_txs.deep_view() == concat_batch_txs(gslot.take(i as int)),
            decreases slot.len() - i,
        {
            let ghost pre = gslot.take(i as int);
            crate::types::append_txs(&mut all_txs, &slot[i].txs);
            proof {
                assert(slot.deep_view()[i as int] == slot@[i as int]@);
                assert(slot@[i as int].txs.deep_view() == gslot[i as int].txs);
            }
            i = i + 1;
            proof {
                let one = seq![gslot[i - 1]];
                assert(gslot.take(i as int) =~= pre + one);
                lemma_concat_batch_txs_append(pre, one);
                assert(one.drop_first() =~= Seq::<BatchView>::empty());
                assert(concat_batch_txs(Seq::<BatchView>::empty()) =~= Seq::<TxView>::empty());
                assert(concat_batch_txs(one) =~= gslot[i - 1].txs);
                assert(all_txs.deep_view() =~= concat_batch_txs(gslot.take(i as int)));
            }
        }
        proof {
            assert(gslot.take(gslot.len() as int) =~= gslot);
            assert(all_txs.deep_view() == concat_batch_txs(gslot));
        }
        let head = store.get_head_header();
        let (number, parent_hash): (u64, [u8; 32]) = match head {
            Some(h) => (h.number + 1, h.hash),
            None => (0u64, [0u8; 32]),
        };
        proof {
            match head_header_of(store@) {
                Some(h) => {
                    assert(number == h.number + 1);
                    assert(parent_hash@ == h.hash);
                },
                None => {
                    assert(number == 0);
                    assert(parent_hash@ =~= zero32());
                },
            }
        }
        let tx_root = compute_tx_root(&all_txs);
        let zero_root: [u8; 32] = [0u8; 32];
        let hash = compute_block_hash(number, &parent_hash, &tx_root);
        let header = BlockHeader {
            number,
            hash,
            parent_hash,
            state_root: zero_root,
            tx_root,
            timestamp: now_ts,
        };
        let b = Block { header, txs: all_txs };
        proof {
            assert(zero_root@ =~= zero32());
            assert(b@ =~= commit_spec(self@, head_header_of(store@), now_ts)->Some_0);
        }
        Some(b)
    }

    /// One round tick: advance the round, drain the mempool into a local
    /// batch, run the commit rule on the round two back, and persist any
    /// committed block with the head pointer advanced to it.
    #[verifier::rlimit(50)]
    pub fn tick_and_commit(&mut self, store: &mut ChainStore) -> (r: Option<Block>)
        requires
            old(self)@.wf(),
            old(store)@.wf(),
            old(store)@.linked(),
            old(store)@.head_at_tip(),
            old(store)@.blocks.len() < 0xffff_ffff_ffff_ffff,
        ensures
            final(self)@.wf(),
            final(store)@.wf(),
            final(store)@.linked(),
            final(store)@.head_at_tip(),
            final(self)@.current_round == old(self)@.current_round + 1,
            exists|id: u128, ts: u64| tick_rel(old(self)@, old(store)@, final(self)@, final(store)@, opt_block_view(r), id, ts),
            r matches Some(b) ==> b@.header.tx_root == tx_root_of(b@.txs),
            r matches Some(b) ==> b@.header.hash == block_hash_of(b@.header.number, b@.header.parent_hash, b@.header.tx_root),
            r matches Some(b) ==> b@.header.number as int == old(store)@.blocks.len(),
            r matches Some(b) ==> final(store)@.head == Some((b@.header.number, b@.header.hash)),
            r matches Some(b) ==> final(store)@.head_number() == b@.header.number,
            r matches Some(b) ==> (b@.header.number as int) < final(store)@.blocks.len() && final(store)@.blocks[b@.header.number as int] == b@,
            r matches Some(b) ==> (b@.header.number > 0 ==> b@.header.parent_hash == final(store)@.blocks[b@.header.number - 1].header.hash),
            r is None ==> final(store)@ == old(store)@,
    {
        let id = fresh_batch_id();
        let ts = unix_now();
        let dlen: usize = self.dag.len();
        proof {
            assert(self@.dag.len() == dlen as int);
        }
        self.current_round = self.current_round + 1;
        self.dag.push(Vec::new());
        proof {
            assert(self@.dag =~~= old(self)@.dag.push(Seq::empty()));
            assert(self@.wf());
        }
        let ghost e1 = EngineView {
            current_round: (old(self)@.current_round + 1) as u64,
            validator_id: old(self)@.validator_id,
            pending_txs: old(self)@.pending_txs,
            dag: old(self)@.dag.push(Seq::empty()),
        };
        proof {
            assert(self@ =~~= e1);
        }
        if self.pending_txs.len() > 0 {
            let round = self.current_round;
            let batch = self.build_local_batch(round, id);
            proof {
                assert(batch@ == local_batch_spec(old(self)@, id));
                assert(self@ =~~= (EngineView { pending_txs: Seq::empty(), ..e1 }));
            }
            if !self.round_has_id(round, batch.id) {
                self.insert_batch_sorted(batch);
            }
            proof {
                assert(self@ =~~= tick_spec(old(self)@, id));
            }
        } else {
            proof {
                assert(self@ =~~= tick_spec(old(self)@, id));
            }
        }
        let blk = self.bullshark_commit(store, ts);
        match blk {
            None => {
                proof {
                    assert(tick_rel(
                        old(self)@,
                        old(store)@,
                        self@,
                        store@,
                        opt_block_view(None::<Block>),
                        id,
                        ts,
                    ));
                }
                None
            },
            Some(b) => {
                proof {
                    assert(put_block_pre(store@, b@));
                    assert(extends_chain(store@, b@));
                }
                store.put_block(&b);
                proof {
                    assert((b.header.number as int) < store@.blocks.len());
                    assert(store@.blocks[b.header.number as int].header.hash == b@.header.hash);
                }
                store.put_head(b.header.number, b.header.hash);
                proof {
                    assert(tick_rel(
                        old(self)@,
                        old(store)@,
                        self@,
                        store@,
                        commit_spec(self@, head_header_of(old(store)@), ts),
                        id,
                        ts,
                    ));
                }
                Some(b)
            },
        }
    }
}

/// Two strictly sorted rounds holding the same batches are the same
/// sequence: the commit order is independent of arrival order.
pub proof fn lemma_sorted_round_unique(x: Seq<BatchView>, y: Seq<BatchView>)
    requires
        round_sorted(x),
        round_sorted(y),
        x.to_multiset() == y.to_multiset(),
    ensures
        x == y,
    decreases x.len(),
{
    broadcast use vstd::multiset::group_multiset_axioms;
    broadcast use vstd::seq_lib::group_to_multiset_ensures;

    if x.len() == 0 || y.len() == 0 {
        assert(x.to_multiset().len() == x.len());
        assert(y.to_multiset().len() == y.len());
        assert(x =~= y);
    } else {
        assert(x.contains(x[0]));
        assert(y.contains(y[0]));
        assert(x.to_multiset().count(x[0]) > 0);
        assert(y.to_multiset().count(y[0]) > 0);
        assert(x.to_multiset().count(y[0]) > 0);
        assert(y.to_multiset().count(x[0]) > 0);
        assert(x.contains(y[0]));
        assert(y.contains(x[0]));
        let i = choose|i: int| 0 <= i < x.len() && x[i] == y[0];
        let j = choose|j: int| 0 <= j < y.len() && y[j] == x[0];
        assert(x[0].id <= x[i].id);
        assert(y[0].id <= y[j].id);
        assert(x[0].id == y[0].id);
        assert(i == 0) by {
            if i > 0 {
                assert(x[0].id < x[i].id);
            }
        }
        assert(x[0] == y[0]);
        assert(x.drop_first() =~= x.remove(0));
        assert(y.drop_first() =~= y.remove(0));
        assert(x.remove(0).to_multiset() == x.to_multiset().remove(x[0]));
        assert(y.remove(0).to_multiset() == y.to_multiset().remove(y[0]));
        assert(x.drop_first().to_multiset() == x.to_multiset().remove(x[0]));
        assert(y.drop_first().to_multiset() == y.to_multiset().remove(y[0]));
        assert(round_sorted(x.drop_first())) by {
            assert forall|a: int, b: int|
                0 <= a < b < x.drop_first().len() implies x.drop_first()[a].id
                < x.drop_first()[b].id by {
                assert(x.drop_first()[a] == x[a + 1]);
                assert(x.drop_first()[b] == x[b + 1]);
            }
        }
        assert(round_sorted(y.drop_first())) by {
            assert forall|a: int, b: int|
                0 <= a < b < y.drop_first().len() implies y.drop_first()[a].id
                < y.drop_first()[b].id by {
                assert(y.drop_first()[a] == y[a + 1]);
                assert(y.drop_first()[b] == y[b + 1]);
            }
        }
        lemma_sorted_round_unique(x.drop_first(), y.drop_first());
        assert(x.len() == y.len());
        assert forall|k: int| 0 <= k < x.len() implies x[k] == y[k] by {
            if k > 0 {
                assert(x.drop_first()[k - 1] == x[k]);
                assert(y.drop_first()[k - 1] == y[k]);
            }
        }
        assert(x =~= y);
    }
}

/// Determinism of the commit rule: two engines at the same round whose
/// commit-round batches are the same collection, against the same head and
/// timestamp, commit the same block.
pub proof fn lemma_commit_deterministic(
    a: EngineView,
    b: EngineView,
    head: Option<HeaderView>,
    ts: u64,
)
    requires
        a.wf(),
        b.wf(),
        a.current_round == b.current_round,
        a.current_round >= 3 ==> a.dag[a.current_round - 2].to_multiset() == b.dag[b.current_round - 2].to_multiset(),
    ensures
        commit_spec(a, head, ts) == commit_spec(b, head, ts),
{
    if a.current_round >= 3 {
        let cr = a.current_round - 2;
        assert(round_sorted(a.dag[cr]));
        assert(round_sorted(b.dag[cr]));
        lemma_sorted_round_unique(a.dag[cr], b.dag[cr]);
    }
}

} // verus!
