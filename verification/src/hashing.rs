//! SHA-256 digests: the transaction root and the block hash.

use vstd::prelude::*;
use sha2::Digest;
use crate::types::{HybridTx, TxView};
use crate::codec::enc_u64;

verus! {

/// The SHA-256 digest of a byte sequence; a function of the bytes alone.
pub uninterp spec fn sha256_of(bytes: Seq<u8>) -> Seq<u8>;

/// Relies on sha2::Sha256::digest: a 32-byte digest computed from the input
/// bytes alone.
#[verifier::external_body]
pub fn sha256(bytes: &[u8]) -> (r: [u8; 32])
    ensures
        r@ == sha256_of(bytes@),
{
    let d = sha2::Sha256::digest(bytes);
    let mut out = [0u8; 32];
    out.copy_from_slice(&d);
    out
}

/// The concatenation of the hashes of a transaction list, in order.
pub open spec fn concat_tx_hashes(txs: Seq<TxView>) -> Seq<u8>
    decreases txs.len(),
{
    if txs.len() == 0 {
        Seq::empty()
    } else {
        txs.first().hash + concat_tx_hashes(txs.drop_first())
    }
}

pub proof fn lemma_concat_tx_hashes_append(a: Seq<TxView>, b: Seq<TxView>)
    ensures
        concat_tx_hashes(a + b) == concat_tx_hashes(a) + concat_tx_hashes(b),
    decreases a.len(),
{
    if a.len() == 0 {
        assert(a + b =~= b);
        assert(concat_tx_hashes(a) + concat_tx_hashes(b) =~= concat_tx_hashes(b));
    } else {
        assert((a + b).drop_first() =~= a.drop_first() + b);
        lemma_concat_tx_hashes_append(a.drop_first(), b);
        assert(concat_tx_hashes(a + b) =~= concat_tx_hashes(a) + concat_tx_hashes(b));
    }
}

/// The transaction root: the digest of the concatenated transaction hashes.
pub open spec fn tx_root_of(txs: Seq<TxView>) -> Seq<u8> {
    sha256_of(concat_tx_hashes(txs))
}

/// The block hash: the digest of the big-endian height, the parent hash and
/// the transaction root.
pub open spec fn block_hash_of(number: u64, parent_hash: Seq<u8>, tx_root: Seq<u8>) -> Seq<u8> {
    sha256_of(enc_u64(number) + parent_hash + tx_root)
}

/// Computes the transaction root over the transactions in order.
pub fn compute_tx_root(txs: &Vec<HybridTx>) -> (r: [u8; 32])
    ensures
        r@ == tx_root_of(txs.deep_view()),
{
    let mut buf: Vec<u8> = Vec::new();
    let mut i: usize = 0;
    while i < txs.len()
        invariant
            i <= txs.len(),
            buf@ == concat_tx_hashes(txs.deep_view().take(i as int)),
        decreases txs.len() - i,
    {
        let ghost pre = txs.deep_view().take(i as int);
        append_hash(&mut buf, &txs[i].hash);
        i = i + 1;
        proof {
            let cur = txs.deep_view().take(i as int);
            assert(cur =~= pre + seq![txs.deep_view()[i - 1]]);
            lemma_concat_tx_hashes_append(pre, seq![txs.deep_view()[i - 1]]);
            let single = seq![txs.deep_view()[i - 1]];
            assert(single.drop_first() =~= Seq::<TxView>::empty());
            assert(concat_tx_hashes(Seq::<TxView>::empty()) =~= Seq::<u8>::empty());
            assert(concat_tx_hashes(single) =~= txs.deep_view()[i - 1].hash);
        }
    }
    proof {
        assert(txs.deep_view().take(txs.len() as int) =~= txs.deep_view());
    }
    sha256(buf.as_slice())
}

/// Appends a 32-byte hash to a byte buffer.
pub fn append_hash(out: &mut Vec<u8>, h: &[u8; 32])
    ensures
        final(out)@ == old(out)@ + h@,
{
    let mut i: usize = 0;
    while i < 32
        invariant
            i <= 32,
            out@ == old(out)@ + h@.take(i as int),
        decreases 32 - i,
    {
        out.push(h[i]);
        i = i + 1;
        assert(out@ =~= old(out)@ + h@.take(i as int));
    }
    assert(out@ =~= old(out)@ + h@);
}

/// Computes the block hash from the height, the parent hash and the
/// transaction root.
pub fn compute_block_hash(number: u64, parent_hash: &[u8; 32], tx_root: &[u8; 32]) -> (r: [u8;
    32])
    ensures
        r@ == block_hash_of(number, parent_hash@, tx_root@),
{
    let mut buf: Vec<u8> = Vec::new();
    crate::codec::encode_u64_into(&mut buf, number);
    append_hash(&mut buf, parent_hash);
    append_hash(&mut buf, tx_root);
    assert(buf@ =~= enc_u64(number) + parent_hash@ + tx_root@);
    sha256(buf.as_slice())
}

} // verus!
