//! The compute half of the Ethereum-style RPC surface: hex quantities, hex
//! data strings, block summaries, and raw-transaction submission.

use vstd::prelude::*;
use crate::types::HybridTx;
use crate::store::ChainStore;
use crate::codec::{decode_tx, parse_tx};

verus! {

/// Whether a byte is an ASCII hex digit, either case.
pub open spec fn is_hex_digit(c: u8) -> bool {
    (48 <= c <= 57) || (97 <= c <= 102) || (65 <= c <= 70)
}

/// The value of an ASCII hex digit.
pub open spec fn hex_val(c: u8) -> u8 {
    if 48 <= c <= 57 {
        (c - 48) as u8
    } else if 97 <= c <= 102 {
        (c - 87) as u8
    } else {
        (c - 55) as u8
    }
}

/// The lowercase ASCII digit of a value below sixteen.
pub open spec fn hex_digit_lower(v: u8) -> u8 {
    if v < 10 {
        (48 + v) as u8
    } else {
        (87 + v) as u8
    }
}

/// Whether a byte string is valid hex: even length, all digits.
pub open spec fn hex_ok(s: Seq<u8>) -> bool {
    s.len() % 2 == 0 && forall|i: int| 0 <= i < s.len() ==> is_hex_digit(#[trigger] s[i])
}

/// The bytes a valid hex string decodes to.
pub open spec fn hex_decode_spec(s: Seq<u8>) -> Seq<u8> {
    Seq::new(
        s.len() / 2,
        |i: int| (((hex_val(s[2 * i]) as int) * 16 + (hex_val(s[2 * i + 1]) as int)) as u8),
    )
}

/// The lowercase hex encoding of a byte string, high nibble first.
pub open spec fn hex_encode_spec(b: Seq<u8>) -> Seq<u8> {
    Seq::new(
        2 * b.len(),
        |i: int|
            if i % 2 == 0 {
                hex_digit_lower((((b[i / 2] as int) / 16) as u8))
            } else {
                hex_digit_lower((((b[i / 2] as int) % 16) as u8))
            },
    )
}

/// Relies on hex::encode: two lowercase digits per byte, high nibble first.
#[verifier::external_body]
pub fn hex_encode(b: &Vec<u8>) -> (r: Vec<u8>)
    ensures
        r@ == hex_encode_spec(b@),
{
    hex::encode(b).into_bytes()
}

/// What decoding a hex string yields: the paired bytes exactly when the
/// string is valid hex.
pub open spec fn hex_decode_result(s: Seq<u8>) -> Option<Seq<u8>> {
    if hex_ok(s) {
        Some(hex_decode_spec(s))
    } else {
        None
    }
}

/// Relies on hex::decode: accepts exactly the even-length strings of hex
/// digits of either case, pairing nibbles high-first.
#[verifier::external_body]
pub fn hex_decode(s: &Vec<u8>) -> (r: Option<Vec<u8>>)
    ensures
        crate::types::opt_view(r) == hex_decode_result(s@),
{
    match hex::decode(s) {
        Ok(v) => Some(v),
        Err(_) => None,
    }
}

/// Sixteen to the given power.
pub open spec fn pow16(n: nat) -> int
    decreases n,
{
    if n == 0 {
        1
    } else {
        16 * pow16((n - 1) as nat)
    }
}

/// The value of a big-endian string of hex digits.
pub open spec fn hex_u64_val(s: Seq<u8>) -> int
    decreases s.len(),
{
    if s.len() == 0 {
        0
    } else {
        hex_u64_val(s.drop_last()) * 16 + hex_val(s.last())
    }
}

/// Whether a digit string parses as a 64-bit quantity: one to sixteen hex
/// digits.
pub open spec fn hex_u64_ok(s: Seq<u8>) -> bool {
    1 <= s.len() <= 16 && forall|i: int| 0 <= i < s.len() ==> is_hex_digit(#[trigger] s[i])
}

/// The value of a hex digit string is below sixteen to its length.
pub proof fn lemma_hex_u64_bound(s: Seq<u8>)
    requires
        forall|i: int| 0 <= i < s.len() ==> is_hex_digit(#[trigger] s[i]),
    ensures
        0 <= hex_u64_val(s) < pow16(s.len()),
    decreases s.len(),
{
    if s.len() == 0 {
    } else {
        assert forall|i: int| 0 <= i < s.drop_last().len() implies is_hex_digit(
            #[trigger] s.drop_last()[i],
        ) by {
            assert(s.drop_last()[i] == s[i]);
        }
        lemma_hex_u64_bound(s.drop_last());
        assert(is_hex_digit(s.last()));
        assert(hex_val(s.last()) < 16);
        assert(hex_u64_val(s.drop_last()) * 16 <= (pow16((s.len() - 1) as nat) - 1) * 16)
            by (nonlinear_arith)
            requires
                hex_u64_val(s.drop_last()) <= pow16((s.len() - 1) as nat) - 1,
        ;
    }
}

/// The value of one ASCII hex digit, if it is one.
pub fn hex_digit_value(c: u8) -> (r: Option<u8>)
    ensures
        is_hex_digit(c) ==> r == Some(hex_val(c)),
        !is_hex_digit(c) ==> r is None,
{
    if 48 <= c && c <= 57 {
        Some(c - 48)
    } else if 97 <= c && c <= 102 {
        Some(c - 87)
    } else if 65 <= c && c <= 70 {
        Some(c - 55)
    } else {
        None
    }
}

/// Parses a big-endian string of at most sixteen hex digits into a 64-bit
/// quantity, as an Ethereum-style block number is written.
pub fn parse_hex_u64(digits: &Vec<u8>) -> (r: Option<u64>)
    ensures
        hex_u64_ok(digits@) ==> r == Some(hex_u64_val(digits@) as u64),
        !hex_u64_ok(digits@) ==> r is None,
{
    if digits.len() < 1 || digits.len() > 16 {
        return None;
    }
    let mut acc: u64 = 0;
    let mut i: usize = 0;
    proof {
        assert(digits@.take(0) =~= Seq::<u8>::empty());
    }
    while i < digits.len()
        invariant
            i <= digits.len(),
            digits@.len() <= 16,
            acc == hex_u64_val(digits@.take(i as int)),
            forall|j: int| 0 <= j < i ==> is_hex_digit(#[trigger] digits@[j]),
        decreases digits.len() - i,
    {
        let d = match hex_digit_value(digits[i]) {
            Some(v) => v,
            None => {
                assert(!is_hex_digit(digits@[i as int]));
                return None;
            },
        };
        proof {
            assert forall|j: int| 0 <= j < i implies is_hex_digit(
                #[trigger] digits@.take(i as int)[j],
            ) by {
                assert(digits@.take(i as int)[j] == digits@[j]);
            }
            lemma_hex_u64_bound(digits@.take(i as int));
            lemma_pow16_mono(i as nat, 15);
            assert(acc * 16 + 15 < 0x1_0000_0000_0000_0000) by (nonlinear_arith)
                requires
                    0 <= acc,
                    (acc as int) < pow16(15),
                    pow16(15) * 16 == pow16(16),
                    pow16(16) == 0x1_0000_0000_0000_0000,
            ;
        }
        let ghost pre = digits@.take(i as int);
        acc = acc * 16 + (d as u64);
        i = i + 1;
        proof {
            let cur = digits@.take(i as int);
            assert(cur.drop_last() =~= pre);
            assert(cur.last() == digits@[i - 1]);
        }
    }
    proof {
        assert(digits@.take(digits@.len() as int) =~= digits@);
    }
    Some(acc)
}

/// `pow16` grows along its argument, and its closed values used here.
pub proof fn lemma_pow16_mono(a: nat, b: nat)
    requires
        a <= b,
        b <= 16,
    ensures
        pow16(a) <= pow16(b),
        pow16(16) == 0x1_0000_0000_0000_0000,
        pow16(15) * 16 == pow16(16),
    decreases b,
{
    assert(pow16(16) == 0x1_0000_0000_0000_0000) by {
        reveal_with_fuel(pow16, 17);
    }
    if a < b {
        lemma_pow16_mono(a, (b - 1) as nat);
        lemma_pow16_pos((b - 1) as nat);
        assert(pow16(b) == 16 * pow16((b - 1) as nat));
        assert(pow16((b - 1) as nat) <= 16 * pow16((b - 1) as nat)) by (nonlinear_arith)
            requires
                pow16((b - 1) as nat) >= 0,
        ;
    }
}

pub proof fn lemma_pow16_pos(n: nat)
    ensures
        pow16(n) >= 1,
    decreases n,
{
    if n > 0 {
        lemma_pow16_pos((n - 1) as nat);
    }
}

/// The minimal lowercase hex digits of a 64-bit quantity; a single zero for
/// zero.
pub open spec fn u64_hex_rep(n: int) -> Seq<u8>
    decreases n,
{
    if n < 16 {
        seq![hex_digit_lower(if n < 0 { 0u8 } else { n as u8 })]
    } else {
        u64_hex_rep(n / 16).push(hex_digit_lower((n % 16) as u8))
    }
}

/// An Ethereum-style hex quantity: `0x` and the minimal digits.
pub open spec fn quantity_hex_spec(n: u64) -> Seq<u8> {
    seq![48u8, 120u8] + u64_hex_rep(n as int)
}

/// An Ethereum-style hex data string: `0x` and two digits per byte.
pub open spec fn data_hex_spec(b: Seq<u8>) -> Seq<u8> {
    seq![48u8, 120u8] + hex_encode_spec(b)
}

/// The minimal lowercase hex digits of a quantity, without the `0x` prefix.
pub fn u64_hex_digits(n: u64) -> (r: Vec<u8>)
    ensures
        r@ == u64_hex_rep(n as int),
{
    let mut rev: Vec<u8> = Vec::new();
    let mut m: u64 = n;
    let first = hex_digit_of(m % 16);
    rev.push(first);
    m = m / 16;
    proof {
        assert(rev@ =~= seq![hex_digit_lower((n as int % 16) as u8)]);
        if m == 0 {
            assert(u64_hex_rep(n as int) =~= rev@.reverse());
        } else {
            assert(u64_hex_rep(n as int) =~= u64_hex_rep(m as int) + rev@.reverse());
        }
    }
    while m > 0
        invariant
            m > 0 ==> u64_hex_rep(n as int) == u64_hex_rep(m as int) + rev@.reverse(),
            m == 0 ==> u64_hex_rep(n as int) == rev@.reverse(),
        decreases m,
    {
        let d = hex_digit_of(m % 16);
        let ghost pre = rev@;
        let ghost m0 = m;
        rev.push(d);
        m = m / 16;
        proof {
            assert(pre.push(d).reverse() =~= seq![d] + pre.reverse());
            if m == 0 {
                assert(m0 < 16);
                assert(u64_hex_rep(m0 as int) =~= seq![d]);
                assert(u64_hex_rep(n as int) =~= rev@.reverse());
            } else {
                assert(m0 >= 16);
                assert(u64_hex_rep(m0 as int) == u64_hex_rep(m as int).push(d));
                assert(u64_hex_rep(m as int).push(d) + pre.reverse() =~= u64_hex_rep(m as int) + (
                seq![d] + pre.reverse()));
                assert(u64_hex_rep(n as int) =~= u64_hex_rep(m as int) + rev@.reverse());
            }
        }
    }
    let mut out: Vec<u8> = Vec::new();
    let mut i: usize = rev.len();
    while i > 0
        invariant
            i <= rev.len(),
            out@ == rev@.reverse().take(rev@.len() - i),
        decreases i,
    {
        i = i - 1;
        out.push(rev[i]);
        proof {
            assert(rev@.reverse()[rev@.len() - 1 - i] == rev@[i as int]);
            assert(out@ =~= rev@.reverse().take(rev@.len() - i));
        }
    }
    proof {
        assert(rev@.reverse().take(rev@.len() as int) =~= rev@.reverse());
    }
    out
}

/// The lowercase digit of a value below sixteen.
fn hex_digit_of(v: u64) -> (r: u8)
    requires
        v < 16,
    ensures
        r == hex_digit_lower(v as u8),
{
    if v < 10 {
        48 + (v as u8)
    } else {
        87 + (v as u8)
    }
}

/// A `0x`-prefixed hex quantity, as `eth_blockNumber` answers.
pub fn quantity_hex(n: u64) -> (r: Vec<u8>)
    ensures
        r@ == quantity_hex_spec(n),
{
    let mut out: Vec<u8> = Vec::new();
    out.push(48);
    out.push(120);
    let digits = u64_hex_digits(n);
    let mut i: usize = 0;
    while i < digits.len()
        invariant
            i <= digits.len(),
            out@ == seq![48u8, 120u8] + digits@.take(i as int),
        decreases digits.len() - i,
    {
        out.push(digits[i]);
        i = i + 1;
        assert(out@ =~= seq![48u8, 120u8] + digits@.take(i as int));
    }
    proof {
        assert(digits@.take(digits@.len() as int) =~= digits@);
    }
    out
}

/// A `0x`-prefixed hex data string for a 32-byte hash.
pub fn hash_hex(h: &[u8; 32]) -> (r: Vec<u8>)
    ensures
        r@ == data_hex_spec(h@),
{
    let mut bytes: Vec<u8> = Vec::new();
    crate::hashing::append_hash(&mut bytes, h);
    proof {
        assert(bytes@ =~= h@);
    }
    let enc = hex_encode(&bytes);
    let mut out: Vec<u8> = Vec::new();
    out.push(48);
    out.push(120);
    let mut i: usize = 0;
    while i < enc.len()
        invariant
            i <= enc.len(),
            out@ == seq![48u8, 120u8] + enc@.take(i as int),
        decreases enc.len() - i,
    {
        out.push(enc[i]);
        i = i + 1;
        assert(out@ =~= seq![48u8, 120u8] + enc@.take(i as int));
    }
    proof {
        assert(enc@.take(enc@.len() as int) =~= enc@);
    }
    out
}

/// Error kinds of the RPC surface.
#[derive(Clone, Copy, Debug, PartialEq, Eq, Structural)]
pub enum RpcError {
    /// The request bytes did not decode.
    Malformed,
}

impl RpcError {
    /// A human-readable description of the error.
    pub fn message(&self) -> (r: &'static str)
        ensures
            r@ == "Malformed request"@,
    {
        "Malformed request"
    }
}

/// The fields `eth_getBlockByNumber` answers with, all hex-encoded.
pub struct BlockSummary {
    pub number_hex: Vec<u8>,
    pub hash_hex: Vec<u8>,
    pub parent_hash_hex: Vec<u8>,
    pub timestamp_hex: Vec<u8>,
    pub tx_hashes_hex: Vec<Vec<u8>>,
}

/// The block summary of a stored height, if present: hex quantities for the
/// number and timestamp, hex data for the hashes, and the transaction hashes
/// in block order.
pub fn eth_get_block_by_number(store: &ChainStore, number: u64) -> (r: Option<BlockSummary>)
    ensures
        (number as int) >= store@.blocks.len() ==> r is None,
        (number as int) < store@.blocks.len() ==> (r matches Some(s) && {
            let b = store@.blocks[number as int];
            &&& s.number_hex@ == quantity_hex_spec(b.header.number)
            &&& s.hash_hex@ == data_hex_spec(b.header.hash)
            &&& s.parent_hash_hex@ == data_hex_spec(b.header.parent_hash)
            &&& s.timestamp_hex@ == quantity_hex_spec(b.header.timestamp)
            &&& s.tx_hashes_hex@.len() == b.txs.len()
            &&& forall|i: int|
                0 <= i < b.txs.len() ==> (#[trigger] s.tx_hashes_hex@[i])@ == data_hex_spec(
                    b.txs[i].hash,
                )
        }),
{
    let block = match store.get_block(number) {
        None => {
            return None;
        },
        Some(b) => b,
    };
    let number_hex = quantity_hex(block.header.number);
    let hash_hex_v = hash_hex(&block.header.hash);
    let parent_hash_hex = hash_hex(&block.header.parent_hash);
    let timestamp_hex = quantity_hex(block.header.timestamp);
    let mut tx_hashes_hex: Vec<Vec<u8>> = Vec::new();
    let mut i: usize = 0;
    while i < block.txs.len()
        invariant
            i <= block.txs.len(),
            block@ == store@.blocks[number as int],
            tx_hashes_hex@.len() == i,
            forall|j: int|
                0 <= j < i ==> (#[trigger] tx_hashes_hex@[j])@ == data_hex_spec(block@.txs[j].hash),
        decreases block.txs.len() - i,
    {
        let hh = hash_hex(&block.txs[i].hash);
        proof {
            assert(block@.txs[i as int] == block.txs@[i as int]@);
        }
        tx_hashes_hex.push(hh);
        i = i + 1;
    }
    Some(BlockSummary { number_hex, hash_hex: hash_hex_v, parent_hash_hex, timestamp_hex, tx_hashes_hex })
}

/// The `eth_blockNumber` answer: the head height as a hex quantity.
pub fn eth_block_number(store: &ChainStore) -> (r: Vec<u8>)
    ensures
        r@ == quantity_hex_spec(store@.head_number()),
{
    quantity_hex(store.get_head_number())
}

/// Strips a leading `0x` from a hex string, as Ethereum requests write it.
pub fn strip_0x(s: &Vec<u8>) -> (r: Vec<u8>)
    ensures
        s@.len() >= 2 && s@[0] == 48 && s@[1] == 120 ==> r@ == s@.skip(2),
        !(s@.len() >= 2 && s@[0] == 48 && s@[1] == 120) ==> r@ == s@,
{
    let mut start: usize = 0;
    if s.len() >= 2 && s[0] == 48 && s[1] == 120 {
        start = 2;
    }
    let mut out: Vec<u8> = Vec::new();
    let mut i: usize = start;
    while i < s.len()
        invariant
            start <= i <= s.len(),
            out@ == s@.subrange(start as int, i as int),
        decreases s.len() - i,
    {
        out.push(s[i]);
        i = i + 1;
        assert(out@ =~= s@.subrange(start as int, i as int));
    }
    proof {
        if start == 2 {
            assert(s@.subrange(2, s@.len() as int) =~= s@.skip(2));
        } else {
            assert(s@.subrange(0, s@.len() as int) =~= s@);
        }
    }
    out
}

/// What a raw-transaction submission decodes to: the hex digits must decode
/// to bytes that hold exactly one canonical transaction.
pub open spec fn raw_tx_spec(stripped: Seq<u8>) -> Option<crate::types::TxView> {
    if !hex_ok(stripped) {
        None
    } else {
        let bytes = hex_decode_spec(stripped);
        match parse_tx(bytes, 0) {
            Some((t, p)) => if p == bytes.len() {
                Some(t)
            } else {
                None
            },
            None => None,
        }
    }
}

/// Decodes an `eth_sendRawTransaction` payload: optional `0x`, hex digits,
/// and a full canonical transaction. Returns the transaction and the
/// `0x`-hex of its hash, which the call answers with.
pub fn eth_send_raw_transaction(tx_hex: &Vec<u8>) -> (r: Result<(HybridTx, Vec<u8>), RpcError>)
    ensures
        ({
            let stripped = if tx_hex@.len() >= 2 && tx_hex@[0] == 48 && tx_hex@[1] == 120 {
                tx_hex@.skip(2)
            } else {
                tx_hex@
            };
            match raw_tx_spec(stripped) {
                Some(t) => r matches Ok((tx, h)) && tx@ == t && h@ == data_hex_spec(t.hash),
                None => r == Err::<(HybridTx, Vec<u8>), RpcError>(RpcError::Malformed),
            }
        }),
{
    let stripped = strip_0x(tx_hex);
    let bytes = match hex_decode(&stripped) {
        None => {
            return Err(RpcError::Malformed);
        },
        Some(b) => b,
    };
    let (tx, p) = match decode_tx(&bytes, 0) {
        None => {
            return Err(RpcError::Malformed);
        },
        Some(x) => x,
    };
    if p != bytes.len() {
        return Err(RpcError::Malformed);
    }
    let h = hash_hex(&tx.hash);
    Ok((tx, h))
}

} // verus!
