//! The chain store: blocks keyed by height, transactions keyed by hash, and
//! the head pointer. Heights are contiguous from zero; re-putting an already
//! stored block is a no-op.

use vstd::prelude::*;
use crate::types::{Block, BlockHeader, BlockView, HybridTx, TxView};

verus! {

/// Mathematical view of the store.
pub struct StoreView {
    /// Committed blocks, indexed by height.
    pub blocks: Seq<BlockView>,
    /// The head pointer: height and hash of the chain head.
    pub head: Option<(u64, Seq<u8>)>,
    /// Stored transactions; at most one per hash, first write wins.
    pub txs: Seq<TxView>,
}

/// Whether a transaction with the given hash is stored.
pub open spec fn has_hash(s: Seq<TxView>, h: Seq<u8>) -> bool {
    exists|i: int| 0 <= i < s.len() && s[i].hash == h
}

/// Insertion of one transaction: kept only if its hash is new.
pub open spec fn insert_tx_spec(s: Seq<TxView>, t: TxView) -> Seq<TxView> {
    if has_hash(s, t.hash) {
        s
    } else {
        s.push(t)
    }
}

/// Insertion of a transaction list, in order.
pub open spec fn insert_txs_spec(s: Seq<TxView>, ts: Seq<TxView>) -> Seq<TxView>
    decreases ts.len(),
{
    if ts.len() == 0 {
        s
    } else {
        insert_txs_spec(insert_tx_spec(s, ts.first()), ts.drop_first())
    }
}

/// The first stored transaction with the given hash.
pub open spec fn find_tx_in(s: Seq<TxView>, h: Seq<u8>) -> Option<TxView>
    decreases s.len(),
{
    if s.len() == 0 {
        None
    } else if s.first().hash == h {
        Some(s.first())
    } else {
        find_tx_in(s.drop_first(), h)
    }
}

/// What `put_block` accepts: the next height, or an identical re-put.
pub open spec fn put_block_pre(s: StoreView, b: BlockView) -> bool {
    &&& (b.header.number as int) <= s.blocks.len()
    &&& ((b.header.number as int) < s.blocks.len() ==> s.blocks[b.header.number as int] == b)
}

/// The store state after `put_block`.
pub open spec fn put_block_spec(s: StoreView, b: BlockView) -> StoreView {
    StoreView {
        blocks: if (b.header.number as int) < s.blocks.len() {
            s.blocks.update(b.header.number as int, b)
        } else {
            s.blocks.push(b)
        },
        head: s.head,
        txs: insert_txs_spec(s.txs, b.txs),
    }
}

/// Whether a block appended at the tip links to the previous block.
pub open spec fn extends_chain(s: StoreView, b: BlockView) -> bool {
    b.header.number as int == s.blocks.len() && b.header.number > 0
        ==> b.header.parent_hash == s.blocks[b.header.number - 1].header.hash
}

impl StoreView {
    /// Structural well-formedness: heights are the indices, and the head
    /// points at a stored block whose hash it repeats.
    pub open spec fn wf(self) -> bool {
        &&& forall|i: int|
            0 <= i < self.blocks.len() ==> (#[trigger] self.blocks[i]).header.number == i
        &&& (self.head matches Some((n, h)) ==> n < self.blocks.len()
            && self.blocks[n as int].header.hash == h)
    }

    /// The hash chain: every block's parent hash is the previous block's
    /// hash.
    pub open spec fn linked(self) -> bool {
        forall|i: int|
            0 < i < self.blocks.len() ==> (#[trigger] self.blocks[i]).header.parent_hash
                == self.blocks[i - 1].header.hash
    }

    /// The head pointer is at the highest stored block.
    pub open spec fn head_at_tip(self) -> bool {
        match self.head {
            None => self.blocks.len() == 0,
            Some((n, h)) => n as int == self.blocks.len() - 1,
        }
    }

    /// The height the head pointer reports; zero when the store is empty.
    pub open spec fn head_number(self) -> u64 {
        match self.head {
            None => 0,
            Some((n, h)) => n,
        }
    }
}

/// In-memory chain state. The byte encodings under `codec` are what a
/// durable backend persists and reloads.
pub struct ChainStore {
    blocks: Vec<Block>,
    head: Option<(u64, [u8; 32])>,
    txs: Vec<HybridTx>,
}

impl View for ChainStore {
    type V = StoreView;

    closed spec fn view(&self) -> StoreView {
        StoreView {
            blocks: self.blocks.deep_view(),
            head: match self.head {
                Some((n, h)) => Some((n, h@)),
                None => None,
            },
            txs: self.txs.deep_view(),
        }
    }
}

/// Compares two 32-byte hashes.
pub fn hash32_eq(a: &[u8; 32], b: &[u8; 32]) -> (r: bool)
    ensures
        r == (a@ == b@),
{
    let mut i: usize = 0;
    while i < 32
        invariant
            i <= 32,
            forall|j: int| 0 <= j < i ==> a@[j] == b@[j],
        decreases 32 - i,
    {
        if a[i] != b[i] {
            assert(a@ != b@);
            return false;
        }
        i = i + 1;
    }
    assert(a@ =~= b@);
    true
}

impl ChainStore {
    /// An empty store: no blocks, no head, no transactions.
    pub fn new() -> (r: ChainStore)
        ensures
            r@.blocks.len() == 0,
            r@.head is None,
            r@.txs.len() == 0,
            r@.wf(),
            r@.linked(),
            r@.head_at_tip(),
    {
        let r = ChainStore { blocks: Vec::new(), head: None, txs: Vec::new() };
        assert(r@.blocks =~= Seq::<BlockView>::empty());
        assert(r@.txs =~= Seq::<TxView>::empty());
        r
    }

    /// Persists a block and its transactions. The block must be the next
    /// height, or a byte-identical re-put of a stored block; the head does
    /// not move.
    pub fn put_block(&mut self, b: &Block)
        requires
            old(self)@.wf(),
            put_block_pre(old(self)@, b@),
        ensures
            final(self)@ == put_block_spec(old(self)@, b@),
            final(self)@.wf(),
            old(self)@.linked() && extends_chain(old(self)@, b@) ==> final(self)@.linked(),
            final(self)@.head == old(self)@.head,
    {
        let n = b.header.number;
        if n == self.blocks.len() as u64 {
            let dup = b.duplicate();
            self.blocks.push(dup);
            proof {
                assert(self.blocks.deep_view() =~= old(self)@.blocks.push(b@));
            }
        } else {
            proof {
                assert(old(self)@.blocks.update(n as int, b@) =~= old(self)@.blocks);
            }
        }
        let ghost mid = self@;
        let mut i: usize = 0;
        while i < b.txs.len()
            invariant
                i <= b.txs.len(),
                self@.blocks == mid.blocks,
                self@.head == mid.head,
                self@.txs == insert_txs_spec(mid.txs, b@.txs.take(i as int)),
            decreases b.txs.len() - i,
        {
            let ghost pre = b@.txs.take(i as int);
            self.insert_tx(&b.txs[i]);
            i = i + 1;
            proof {
                let cur = b@.txs.take(i as int);
                assert(cur =~= pre + seq![b@.txs[i - 1]]);
                lemma_insert_txs_concat(mid.txs, pre, seq![b@.txs[i - 1]]);
                let one = seq![b@.txs[i - 1]];
                let x = insert_txs_spec(mid.txs, pre);
                assert(insert_txs_spec(x, one) == insert_tx_spec(x, b@.txs[i - 1])) by {
                    assert(one.first() == b@.txs[i - 1]);
                    assert(one.drop_first() =~= Seq::<TxView>::empty());
                    assert(insert_txs_spec(insert_tx_spec(x, one.first()), Seq::<TxView>::empty())
                        == insert_tx_spec(x, one.first()));
                }
                assert((&b.txs[i - 1])@ == b@.txs[i - 1]);
            }
        }
        proof {
            assert(b@.txs.take(b@.txs.len() as int) =~= b@.txs);
            assert(self@ == put_block_spec(old(self)@, b@));
        }
    }

    /// Inserts one transaction, keyed by hash; first write wins.
    fn insert_tx(&mut self, t: &HybridTx)
        ensures
            final(self)@.txs == insert_tx_spec(old(self)@.txs, t@),
            final(self)@.blocks == old(self)@.blocks,
            final(self)@.head == old(self)@.head,
    {
        let mut i: usize = 0;
        while i < self.txs.len()
            invariant
                i <= self.txs.len(),
                self@ == old(self)@,
                forall|j: int| 0 <= j < i ==> (#[trigger] self@.txs[j]).hash != t@.hash,
            decreases self.txs.len() - i,
        {
            if hash32_eq(&self.txs[i].hash, &t.hash) {
                assert(self@.txs[i as int].hash == t@.hash);
                assert(has_hash(self@.txs, t@.hash));
                return ;
            }
            assert(self@.txs[i as int].hash != t@.hash) by {
                assert(self@.txs[i as int] == self.txs@[i as int]@);
            }
            i = i + 1;
        }
        assert(!has_hash(self@.txs, t@.hash));
        let dup = t.duplicate();
        self.txs.push(dup);
        proof {
            assert(self.txs.deep_view() =~= old(self)@.txs.push(t@));
        }
    }

    /// Sets the head pointer to a stored block.
    pub fn put_head(&mut self, number: u64, hash: [u8; 32])
        requires
            old(self)@.wf(),
            (number as int) < old(self)@.blocks.len(),
            old(self)@.blocks[number as int].header.hash == hash@,
        ensures
            final(self)@.head == Some((number, hash@)),
            final(self)@.blocks == old(self)@.blocks,
            final(self)@.txs == old(self)@.txs,
            final(self)@.wf(),
    {
        self.head = Some((number, hash));
    }

    /// The stored block at a height, if any.
    pub fn get_block(&self, number: u64) -> (r: Option<Block>)
        ensures
            (number as int) < self@.blocks.len() ==> (r matches Some(b) && b@ == self@.blocks[number as int]),
            (number as int) >= self@.blocks.len() ==> r is None,
    {
        if number < self.blocks.len() as u64 {
            let b = self.blocks[number as usize].duplicate();
            Some(b)
        } else {
            None
        }
    }

    /// The stored transaction with a hash, if any; the first ever stored
    /// under that hash.
    pub fn get_tx(&self, hash: &[u8; 32]) -> (r: Option<HybridTx>)
        ensures
            match r {
                Some(t) => find_tx_in(self@.txs, hash@) == Some(t@),
                None => find_tx_in(self@.txs, hash@) is None,
            },
    {
        let mut i: usize = 0;
        proof {
            assert(self@.txs.skip(0) =~= self@.txs);
        }
        while i < self.txs.len()
            invariant
                i <= self.txs.len(),
                find_tx_in(self@.txs, hash@) == find_tx_in(self@.txs.skip(i as int), hash@),
            decreases self.txs.len() - i,
        {
            let ghost pre = self@.txs.skip(i as int);
            if hash32_eq(&self.txs[i].hash, hash) {
                let t = self.txs[i].duplicate();
                proof {
                    assert(pre.first() == self@.txs[i as int]);
                    assert(pre.first().hash == hash@) by {
                        assert(self@.txs[i as int] == self.txs@[i as int]@);
                    }
                }
                return Some(t);
            }
            i = i + 1;
            proof {
                assert(pre.first().hash != hash@) by {
                    assert(self@.txs[i - 1] == self.txs@[i - 1]@);
                }
                assert(pre.drop_first() =~= self@.txs.skip(i as int));
            }
        }
        proof {
            assert(self@.txs.skip(self@.txs.len() as int) =~= Seq::<TxView>::empty());
        }
        None
    }

    /// The height of the chain head; zero when nothing is committed.
    pub fn get_head_number(&self) -> (r: u64)
        ensures
            r == self@.head_number(),
    {
        match &self.head {
            Some((n, h)) => *n,
            None => 0,
        }
    }

    /// The hash of the chain head, if a head exists.
    pub fn get_head_hash(&self) -> (r: Option<[u8; 32]>)
        ensures
            match r {
                Some(h) => self@.head matches Some((n, hh)) && hh == h@,
                None => self@.head is None,
            },
    {
        match &self.head {
            Some((n, h)) => Some(*h),
            None => None,
        }
    }

    /// The header of the chain head, if a head exists.
    pub fn get_head_header(&self) -> (r: Option<BlockHeader>)
        requires
            self@.wf(),
        ensures
            match r {
                Some(hd) => self@.head matches Some((n, hh)) && hd@ == self@.blocks[n as int].header && hd@.hash == hh,
                None => self@.head is None,
            },
    {
        let len: usize = self.blocks.len();
        match &self.head {
            Some((n, h)) => {
                proof {
                    assert(self@.head == Some((*n, h@)));
                    assert((*n as int) < self@.blocks.len());
                    assert(self@.blocks.len() == len as int);
                }
                if *n < len as u64 {
                    let idx: usize = *n as usize;
                    let hd = self.blocks[idx].header;
                    proof {
                        assert(hd == self.blocks@[idx as int].header);
                        assert(self@.blocks[idx as int] == self.blocks@[idx as int]@);
                        assert(self.blocks@[idx as int]@.header == self.blocks@[idx as int].header@);
                        assert(hd@ == self@.blocks[*n as int].header);
                    }
                    Some(hd)
                } else {
                    proof {
                        assert(false);
                    }
                    None
                }
            },
            None => None,
        }
    }
}

/// Folding an insertion list splits over concatenation.
pub proof fn lemma_insert_txs_concat(s: Seq<TxView>, a: Seq<TxView>, b: Seq<TxView>)
    ensures
        insert_txs_spec(s, a + b) == insert_txs_spec(insert_txs_spec(s, a), b),
    decreases a.len(),
{
    if a.len() == 0 {
        assert(a + b =~= b);
    } else {
        assert((a + b).first() == a.first());
        assert((a + b).drop_first() =~= a.drop_first() + b);
        lemma_insert_txs_concat(insert_tx_spec(s, a.first()), a.drop_first(), b);
    }
}

/// Inserting never removes a stored hash.
pub proof fn lemma_insert_txs_preserves(s: Seq<TxView>, ts: Seq<TxView>, h: Seq<u8>)
    requires
        has_hash(s, h),
    ensures
        has_hash(insert_txs_spec(s, ts), h),
    decreases ts.len(),
{
    if ts.len() == 0 {
    } else {
        let s1 = insert_tx_spec(s, ts.first());
        assert(has_hash(s1, h)) by {
            let i = choose|i: int| 0 <= i < s.len() && s[i].hash == h;
            assert(s1[i].hash == h);
        }
        lemma_insert_txs_preserves(s1, ts.drop_first(), h);
    }
}

/// After inserting a list, every hash of the list is stored.
pub proof fn lemma_insert_txs_adds(s: Seq<TxView>, ts: Seq<TxView>)
    ensures
        forall|j: int|
            0 <= j < ts.len() ==> has_hash(insert_txs_spec(s, ts), (#[trigger] ts[j]).hash),
    decreases ts.len(),
{
    if ts.len() == 0 {
    } else {
        let t = ts.first();
        let s1 = insert_tx_spec(s, t);
        assert(has_hash(s1, t.hash)) by {
            if has_hash(s, t.hash) {
                let i = choose|i: int| 0 <= i < s.len() && s[i].hash == t.hash;
                assert(s1[i].hash == t.hash);
            } else {
                assert(s1[s.len() as int].hash == t.hash);
            }
        }
        lemma_insert_txs_preserves(s1, ts.drop_first(), t.hash);
        lemma_insert_txs_adds(s1, ts.drop_first());
        assert forall|j: int| 0 <= j < ts.len() implies has_hash(
            insert_txs_spec(s, ts),
            (#[trigger] ts[j]).hash,
        ) by {
            if j > 0 {
                assert(ts.drop_first()[j - 1] == ts[j]);
            }
        }
    }
}

/// Inserting a list whose hashes are all stored changes nothing.
pub proof fn lemma_insert_txs_noop(s: Seq<TxView>, ts: Seq<TxView>)
    requires
        forall|j: int| 0 <= j < ts.len() ==> has_hash(s, (#[trigger] ts[j]).hash),
    ensures
        insert_txs_spec(s, ts) == s,
    decreases ts.len(),
{
    if ts.len() == 0 {
    } else {
        assert(has_hash(s, ts.first().hash)) by {
            assert(ts[0] == ts.first());
        }
        assert(insert_tx_spec(s, ts.first()) == s);
        assert forall|j: int| 0 <= j < ts.drop_first().len() implies has_hash(
            s,
            (#[trigger] ts.drop_first()[j]).hash,
        ) by {
            assert(ts.drop_first()[j] == ts[j + 1]);
        }
        lemma_insert_txs_noop(s, ts.drop_first());
    }
}

/// Parent linkage: in a linked store, every block above genesis names the
/// hash of the block beneath it as its parent hash.
pub proof fn lemma_parent_linkage(s: StoreView, i: int)
    requires
        s.linked(),
        0 < i < s.blocks.len(),
    ensures
        s.blocks[i].header.parent_hash == s.blocks[i - 1].header.hash,
{
}

/// Idempotence of `put_block`: a second put of the same block leaves the
/// store exactly as one put does.
pub proof fn lemma_put_block_idempotent(s: StoreView, b: BlockView)
    requires
        put_block_pre(s, b),
    ensures
        put_block_pre(put_block_spec(s, b), b),
        put_block_spec(put_block_spec(s, b), b) == put_block_spec(s, b),
{
    let s1 = put_block_spec(s, b);
    let n = b.header.number as int;
    assert(s1.blocks[n] == b);
    let s2 = put_block_spec(s1, b);
    assert(s2.blocks =~= s1.blocks);
    lemma_insert_txs_adds(s.txs, b.txs);
    lemma_insert_txs_noop(s1.txs, b.txs);
    assert(s2 == s1);
}

} // verus!
