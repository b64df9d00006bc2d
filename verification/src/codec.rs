//! The canonical byte encoding: fixed-width big-endian integers and
//! length-prefixed byte strings, with parsers and round-trip proofs.
//!
//! Every validator must produce byte-identical output for identical inputs;
//! the signed payload, the transaction hash and the persisted records all use
//! this encoding.

use vstd::prelude::*;
use crate::types::{
    Block, BlockHeader, BlockView, HeaderView, HybridTx, NarwhalBatch, BatchView, TxView,
};

verus! {

// ---------------------------------------------------------------------------
// Big-endian integers
// ---------------------------------------------------------------------------

/// Big-endian 8-byte encoding of a 64-bit integer.
pub open spec fn enc_u64(x: u64) -> Seq<u8> {
    seq![
        (x >> 56) as u8,
        (x >> 48) as u8,
        (x >> 40) as u8,
        (x >> 32) as u8,
        (x >> 24) as u8,
        (x >> 16) as u8,
        (x >> 8) as u8,
        x as u8,
    ]
}

/// Big-endian 16-byte encoding of a 128-bit integer.
pub open spec fn enc_u128(x: u128) -> Seq<u8> {
    seq![
        (x >> 120) as u8,
        (x >> 112) as u8,
        (x >> 104) as u8,
        (x >> 96) as u8,
        (x >> 88) as u8,
        (x >> 80) as u8,
        (x >> 72) as u8,
        (x >> 64) as u8,
        (x >> 56) as u8,
        (x >> 48) as u8,
        (x >> 40) as u8,
        (x >> 32) as u8,
        (x >> 24) as u8,
        (x >> 16) as u8,
        (x >> 8) as u8,
        x as u8,
    ]
}

/// Recombines eight big-endian bytes starting at `pos`.
pub open spec fn comb_u64(b: Seq<u8>, pos: int) -> u64 {
    (((b[pos] as u64) << 56) | ((b[pos + 1] as u64) << 48) | ((b[pos + 2] as u64) << 40) | ((b[pos
        + 3] as u64) << 32) | ((b[pos + 4] as u64) << 24) | ((b[pos + 5] as u64) << 16) | ((b[pos
        + 6] as u64) << 8) | (b[pos + 7] as u64)) as u64
}

/// Recombines sixteen big-endian bytes starting at `pos`.
pub open spec fn comb_u128(b: Seq<u8>, pos: int) -> u128 {
    (((b[pos] as u128) << 120) | ((b[pos + 1] as u128) << 112) | ((b[pos + 2] as u128) << 104) | (
    (b[pos + 3] as u128) << 96) | ((b[pos + 4] as u128) << 88) | ((b[pos + 5] as u128) << 80) | ((
    b[pos + 6] as u128) << 72) | ((b[pos + 7] as u128) << 64) | ((b[pos + 8] as u128) << 56) | ((
    b[pos + 9] as u128) << 48) | ((b[pos + 10] as u128) << 40) | ((b[pos + 11] as u128) << 32) | (
    (b[pos + 12] as u128) << 24) | ((b[pos + 13] as u128) << 16) | ((b[pos + 14] as u128) << 8) | (
    b[pos + 15] as u128)) as u128
}

pub proof fn lemma_comb_enc_u64(x: u64)
    ensures
        comb_u64(enc_u64(x), 0) == x,
{
    assert((((((x >> 56) as u8) as u64) << 56) | ((((x >> 48) as u8) as u64) << 48) | ((((x >> 40)
        as u8) as u64) << 40) | ((((x >> 32) as u8) as u64) << 32) | ((((x >> 24) as u8) as u64)
        << 24) | ((((x >> 16) as u8) as u64) << 16) | ((((x >> 8) as u8) as u64) << 8) | (((
    x as u8) as u64))) as u64 == x) by (bit_vector);
}

pub proof fn lemma_comb_enc_u128(x: u128)
    ensures
        comb_u128(enc_u128(x), 0) == x,
{
    assert((((((x >> 120) as u8) as u128) << 120) | ((((x >> 112) as u8) as u128) << 112) | ((((x
        >> 104) as u8) as u128) << 104) | ((((x >> 96) as u8) as u128) << 96) | ((((x >> 88) as u8)
        as u128) << 88) | ((((x >> 80) as u8) as u128) << 80) | ((((x >> 72) as u8) as u128) << 72)
        | ((((x >> 64) as u8) as u128) << 64) | ((((x >> 56) as u8) as u128) << 56) | ((((x >> 48)
        as u8) as u128) << 48) | ((((x >> 40) as u8) as u128) << 40) | ((((x >> 32) as u8) as u128)
        << 32) | ((((x >> 24) as u8) as u128) << 24) | ((((x >> 16) as u8) as u128) << 16) | ((((x
        >> 8) as u8) as u128) << 8) | (((x as u8) as u128))) as u128 == x) by (bit_vector);
}

/// Parses a big-endian 64-bit integer.
pub open spec fn parse_u64(b: Seq<u8>, pos: int) -> Option<(u64, int)> {
    if 0 <= pos && pos + 8 <= b.len() {
        Some((comb_u64(b, pos), pos + 8))
    } else {
        None
    }
}

/// Parses a big-endian 128-bit integer.
pub open spec fn parse_u128(b: Seq<u8>, pos: int) -> Option<(u128, int)> {
    if 0 <= pos && pos + 16 <= b.len() {
        Some((comb_u128(b, pos), pos + 16))
    } else {
        None
    }
}

pub proof fn lemma_parse_u64_at(b: Seq<u8>, pos: int, x: u64)
    requires
        0 <= pos,
        pos + 8 <= b.len(),
        b.subrange(pos, pos + 8) == enc_u64(x),
    ensures
        parse_u64(b, pos) == Some((x, pos + 8)),
{
    let sub = b.subrange(pos, pos + 8);
    assert(b[pos] == sub[0]);
    assert(b[pos + 1] == sub[1]);
    assert(b[pos + 2] == sub[2]);
    assert(b[pos + 3] == sub[3]);
    assert(b[pos + 4] == sub[4]);
    assert(b[pos + 5] == sub[5]);
    assert(b[pos + 6] == sub[6]);
    assert(b[pos + 7] == sub[7]);
    lemma_comb_enc_u64(x);
    assert(comb_u64(b, pos) == comb_u64(enc_u64(x), 0));
}

pub proof fn lemma_parse_u128_at(b: Seq<u8>, pos: int, x: u128)
    requires
        0 <= pos,
        pos + 16 <= b.len(),
        b.subrange(pos, pos + 16) == enc_u128(x),
    ensures
        parse_u128(b, pos) == Some((x, pos + 16)),
{
    let sub = b.subrange(pos, pos + 16);
    assert forall|k: int| 0 <= k < 16 implies b[pos + k] == #[trigger] sub[k] by {}
    assert(b[pos] == sub[0]);
    assert(b[pos + 1] == sub[1]);
    assert(b[pos + 2] == sub[2]);
    assert(b[pos + 3] == sub[3]);
    assert(b[pos + 4] == sub[4]);
    assert(b[pos + 5] == sub[5]);
    assert(b[pos + 6] == sub[6]);
    assert(b[pos + 7] == sub[7]);
    assert(b[pos + 8] == sub[8]);
    assert(b[pos + 9] == sub[9]);
    assert(b[pos + 10] == sub[10]);
    assert(b[pos + 11] == sub[11]);
    assert(b[pos + 12] == sub[12]);
    assert(b[pos + 13] == sub[13]);
    assert(b[pos + 14] == sub[14]);
    assert(b[pos + 15] == sub[15]);
    lemma_comb_enc_u128(x);
    assert(comb_u128(b, pos) == comb_u128(enc_u128(x), 0));
}

/// Appends the big-endian encoding of a 64-bit integer.
pub fn encode_u64_into(out: &mut Vec<u8>, x: u64)
    ensures
        final(out)@ == old(out)@ + enc_u64(x),
{
    out.push((x >> 56) as u8);
    out.push((x >> 48) as u8);
    out.push((x >> 40) as u8);
    out.push((x >> 32) as u8);
    out.push((x >> 24) as u8);
    out.push((x >> 16) as u8);
    out.push((x >> 8) as u8);
    out.push(x as u8);
    assert(out@ =~= old(out)@ + enc_u64(x));
}

/// Appends the big-endian encoding of a 128-bit integer.
pub fn encode_u128_into(out: &mut Vec<u8>, x: u128)
    ensures
        final(out)@ == old(out)@ + enc_u128(x),
{
    out.push((x >> 120) as u8);
    out.push((x >> 112) as u8);
    out.push((x >> 104) as u8);
    out.push((x >> 96) as u8);
    out.push((x >> 88) as u8);
    out.push((x >> 80) as u8);
    out.push((x >> 72) as u8);
    out.push((x >> 64) as u8);
    out.push((x >> 56) as u8);
    out.push((x >> 48) as u8);
    out.push((x >> 40) as u8);
    out.push((x >> 32) as u8);
    out.push((x >> 24) as u8);
    out.push((x >> 16) as u8);
    out.push((x >> 8) as u8);
    out.push(x as u8);
    assert(out@ =~= old(out)@ + enc_u128(x));
}

/// Reads a big-endian 64-bit integer.
pub fn decode_u64(b: &Vec<u8>, pos: usize) -> (r: Option<(u64, usize)>)
    ensures
        match r {
            Some((x, p)) => parse_u64(b@, pos as int) == Some((x, p as int)),
            None => parse_u64(b@, pos as int) is None,
        },
{
    if pos > b.len() || b.len() - pos < 8 {
        return None;
    }
    let x: u64 = ((b[pos] as u64) << 56) | ((b[pos + 1] as u64) << 48) | ((b[pos + 2] as u64)
        << 40) | ((b[pos + 3] as u64) << 32) | ((b[pos + 4] as u64) << 24) | ((b[pos + 5] as u64)
        << 16) | ((b[pos + 6] as u64) << 8) | (b[pos + 7] as u64);
    Some((x, pos + 8))
}

/// Reads a big-endian 128-bit integer.
pub fn decode_u128(b: &Vec<u8>, pos: usize) -> (r: Option<(u128, usize)>)
    ensures
        match r {
            Some((x, p)) => parse_u128(b@, pos as int) == Some((x, p as int)),
            None => parse_u128(b@, pos as int) is None,
        },
{
    if pos > b.len() || b.len() - pos < 16 {
        return None;
    }
    let x: u128 = ((b[pos] as u128) << 120) | ((b[pos + 1] as u128) << 112) | ((b[pos + 2] as u128)
        << 104) | ((b[pos + 3] as u128) << 96) | ((b[pos + 4] as u128) << 88) | ((b[pos + 5]
        as u128) << 80) | ((b[pos + 6] as u128) << 72) | ((b[pos + 7] as u128) << 64) | ((b[pos
        + 8] as u128) << 56) | ((b[pos + 9] as u128) << 48) | ((b[pos + 10] as u128) << 40) | ((
    b[pos + 11] as u128) << 32) | ((b[pos + 12] as u128) << 24) | ((b[pos + 13] as u128) << 16) | (
    (b[pos + 14] as u128) << 8) | (b[pos + 15] as u128);
    Some((x, pos + 16))
}

// ---------------------------------------------------------------------------
// Fixed-width byte strings
// ---------------------------------------------------------------------------

/// Parses `n` raw bytes.
pub open spec fn parse_fixed(b: Seq<u8>, pos: int, n: int) -> Option<(Seq<u8>, int)> {
    if 0 <= pos && pos + n <= b.len() {
        Some((b.subrange(pos, pos + n), pos + n))
    } else {
        None
    }
}

/// Appends a 20-byte address.
pub fn encode_addr_into(out: &mut Vec<u8>, a: &[u8; 20])
    ensures
        final(out)@ == old(out)@ + a@,
{
    let mut i: usize = 0;
    while i < 20
        invariant
            i <= 20,
            out@ == old(out)@ + a@.take(i as int),
        decreases 20 - i,
    {
        out.push(a[i]);
        i = i + 1;
        assert(out@ =~= old(out)@ + a@.take(i as int));
    }
    assert(out@ =~= old(out)@ + a@);
}

/// Reads a 32-byte hash.
pub fn decode_arr32(b: &Vec<u8>, pos: usize) -> (r: Option<([u8; 32], usize)>)
    ensures
        match r {
            Some((a, p)) => parse_fixed(b@, pos as int, 32) == Some((a@, p as int)),
            None => parse_fixed(b@, pos as int, 32) is None,
        },
{
    if pos > b.len() || b.len() - pos < 32 {
        return None;
    }
    let mut a: [u8; 32] = [0u8; 32];
    let mut i: usize = 0;
    while i < 32
        invariant
            i <= 32,
            pos + 32 <= b.len(),
            forall|j: int| 0 <= j < i ==> a@[j] == b@[pos + j],
        decreases 32 - i,
    {
        a[i] = b[pos + i];
        i = i + 1;
    }
    assert(a@ =~= b@.subrange(pos as int, pos + 32));
    Some((a, pos + 32))
}

/// Reads a 20-byte address.
pub fn decode_arr20(b: &Vec<u8>, pos: usize) -> (r: Option<([u8; 20], usize)>)
    ensures
        match r {
            Some((a, p)) => parse_fixed(b@, pos as int, 20) == Some((a@, p as int)),
            None => parse_fixed(b@, pos as int, 20) is None,
        },
{
    if pos > b.len() || b.len() - pos < 20 {
        return None;
    }
    let mut a: [u8; 20] = [0u8; 20];
    let mut i: usize = 0;
    while i < 20
        invariant
            i <= 20,
            pos + 20 <= b.len(),
            forall|j: int| 0 <= j < i ==> a@[j] == b@[pos + j],
        decreases 20 - i,
    {
        a[i] = b[pos + i];
        i = i + 1;
    }
    assert(a@ =~= b@.subrange(pos as int, pos + 20));
    Some((a, pos + 20))
}

// ---------------------------------------------------------------------------
// Length-prefixed byte strings and options
// ---------------------------------------------------------------------------

/// Length-prefixed encoding of a byte string.
pub open spec fn enc_bytes(b: Seq<u8>) -> Seq<u8> {
    enc_u64(b.len() as u64) + b
}

/// Parses a length-prefixed byte string.
pub open spec fn parse_bytes(b: Seq<u8>, pos: int) -> Option<(Seq<u8>, int)> {
    match parse_u64(b, pos) {
        None => None,
        Some((l, p1)) => {
            if p1 + l <= b.len() {
                Some((b.subrange(p1, p1 + l), p1 + l))
            } else {
                None
            }
        },
    }
}

pub proof fn lemma_parse_bytes_at(b: Seq<u8>, pos: int, data: Seq<u8>)
    requires
        data.len() < 0x1_0000_0000_0000_0000,
        0 <= pos,
        pos + enc_bytes(data).len() <= b.len(),
        b.subrange(pos, pos + enc_bytes(data).len() as int) == enc_bytes(data),
    ensures
        parse_bytes(b, pos) == Some((data, pos + 8 + data.len())),
{
    let n = data.len() as int;
    let whole = b.subrange(pos, pos + 8 + n);
    assert(whole.subrange(0, 8) =~= b.subrange(pos, pos + 8));
    assert(enc_bytes(data).subrange(0, 8) =~= enc_u64(data.len() as u64));
    lemma_parse_u64_at(b, pos, data.len() as u64);
    assert(parse_u64(b, pos) == Some((data.len() as u64, pos + 8)));
    assert(b.subrange(pos + 8, pos + 8 + n) =~= data) by {
        assert(enc_bytes(data).subrange(8, 8 + n) =~= data);
        assert forall|k: int| 0 <= k < n implies b[pos + 8 + k] == #[trigger] data[k] by {
            assert(whole[8 + k] == enc_bytes(data)[8 + k]);
        }
    }
}

/// Appends the length-prefixed encoding of a byte string.
pub fn encode_bytes_into(out: &mut Vec<u8>, b: &Vec<u8>)
    ensures
        final(out)@ == old(out)@ + enc_bytes(b@),
{
    encode_u64_into(out, b.len() as u64);
    let mut i: usize = 0;
    while i < b.len()
        invariant
            i <= b.len(),
            out@ == old(out)@ + enc_u64(b@.len() as u64) + b@.take(i as int),
        decreases b.len() - i,
    {
        out.push(b[i]);
        i = i + 1;
        assert(out@ =~= old(out)@ + enc_u64(b@.len() as u64) + b@.take(i as int));
    }
    assert(out@ =~= old(out)@ + enc_bytes(b@));
}

/// Reads a length-prefixed byte string.
pub fn decode_bytes(b: &Vec<u8>, pos: usize) -> (r: Option<(Vec<u8>, usize)>)
    ensures
        match r {
            Some((v, p)) => parse_bytes(b@, pos as int) == Some((v@, p as int)),
            None => parse_bytes(b@, pos as int) is None,
        },
{
    let (l, p1) = match decode_u64(b, pos) {
        None => {
            return None;
        },
        Some(x) => x,
    };
    if l > (b.len() - p1) as u64 {
        return None;
    }
    let li = l as usize;
    let mut v: Vec<u8> = Vec::new();
    let mut i: usize = 0;
    while i < li
        invariant
            i <= li,
            p1 + li <= b.len(),
            v@ == b@.subrange(p1 as int, p1 + i),
        decreases li - i,
    {
        v.push(b[p1 + i]);
        i = i + 1;
        assert(v@ =~= b@.subrange(p1 as int, p1 + i));
    }
    Some((v, p1 + li))
}

/// Encoding of an optional byte string: a presence tag, then the bytes.
pub open spec fn enc_opt_bytes(o: Option<Seq<u8>>) -> Seq<u8> {
    match o {
        None => seq![0u8],
        Some(v) => seq![1u8] + enc_bytes(v),
    }
}

/// Parses an optional byte string.
pub open spec fn parse_opt_bytes(b: Seq<u8>, pos: int) -> Option<(Option<Seq<u8>>, int)> {
    if 0 <= pos && pos < b.len() {
        if b[pos] == 0u8 {
            Some((None, pos + 1))
        } else if b[pos] == 1u8 {
            match parse_bytes(b, pos + 1) {
                None => None,
                Some((v, p)) => Some((Some(v), p)),
            }
        } else {
            None
        }
    } else {
        None
    }
}

pub proof fn lemma_parse_opt_bytes_at(b: Seq<u8>, pos: int, o: Option<Seq<u8>>)
    requires
        (o matches Some(v) ==> v.len() < 0x1_0000_0000_0000_0000),
        0 <= pos,
        pos + enc_opt_bytes(o).len() <= b.len(),
        b.subrange(pos, pos + enc_opt_bytes(o).len() as int) == enc_opt_bytes(o),
    ensures
        parse_opt_bytes(b, pos) == Some((o, pos + enc_opt_bytes(o).len())),
{
    let e = enc_opt_bytes(o);
    assert(b[pos] == b.subrange(pos, pos + e.len() as int)[0]);
    match o {
        None => {
            assert(b[pos] == 0u8);
        },
        Some(v) => {
            assert(b[pos] == 1u8);
            assert(b.subrange(pos + 1, pos + 1 + enc_bytes(v).len() as int) =~= enc_bytes(v)) by {
                assert forall|k: int| 0 <= k < enc_bytes(v).len() implies b[pos + 1 + k]
                    == #[trigger] enc_bytes(v)[k] by {
                    assert(b.subrange(pos, pos + e.len() as int)[1 + k] == e[1 + k]);
                }
            }
            lemma_parse_bytes_at(b, pos + 1, v);
        },
    }
}

/// Appends the encoding of an optional byte string.
pub fn encode_opt_bytes_into(out: &mut Vec<u8>, o: &Option<Vec<u8>>)
    ensures
        final(out)@ == old(out)@ + enc_opt_bytes(crate::types::opt_view(*o)),
{
    match o {
        None => {
            out.push(0u8);
            assert(out@ =~= old(out)@ + enc_opt_bytes(crate::types::opt_view(*o)));
        },
        Some(v) => {
            out.push(1u8);
            encode_bytes_into(out, v);
            assert(out@ =~= old(out)@ + enc_opt_bytes(crate::types::opt_view(*o)));
        },
    }
}

/// Reads an optional byte string.
pub fn decode_opt_bytes(b: &Vec<u8>, pos: usize) -> (r: Option<(Option<Vec<u8>>, usize)>)
    ensures
        match r {
            Some((v, p)) => parse_opt_bytes(b@, pos as int) == Some(
                (crate::types::opt_view(v), p as int),
            ),
            None => parse_opt_bytes(b@, pos as int) is None,
        },
{
    if pos >= b.len() {
        return None;
    }
    let tag = b[pos];
    if tag == 0u8 {
        Some((None, pos + 1))
    } else if tag == 1u8 {
        match decode_bytes(b, pos + 1) {
            None => None,
            Some((v, p)) => Some((Some(v), p)),
        }
    } else {
        None
    }
}

/// Encoding of an optional 20-byte address: a presence tag, then the bytes.
pub open spec fn enc_opt_addr(o: Option<Seq<u8>>) -> Seq<u8> {
    match o {
        None => seq![0u8],
        Some(a) => seq![1u8] + a,
    }
}

/// Parses an optional 20-byte address.
pub open spec fn parse_opt_addr(b: Seq<u8>, pos: int) -> Option<(Option<Seq<u8>>, int)> {
    if 0 <= pos && pos < b.len() {
        if b[pos] == 0u8 {
            Some((None, pos + 1))
        } else if b[pos] == 1u8 {
            match parse_fixed(b, pos + 1, 20) {
                None => None,
                Some((a, p)) => Some((Some(a), p)),
            }
        } else {
            None
        }
    } else {
        None
    }
}

pub proof fn lemma_parse_opt_addr_at(b: Seq<u8>, pos: int, o: Option<Seq<u8>>)
    requires
        (o matches Some(a) ==> a.len() == 20),
        0 <= pos,
        pos + enc_opt_addr(o).len() <= b.len(),
        b.subrange(pos, pos + enc_opt_addr(o).len() as int) == enc_opt_addr(o),
    ensures
        parse_opt_addr(b, pos) == Some((o, pos + enc_opt_addr(o).len())),
{
    let e = enc_opt_addr(o);
    assert(b[pos] == b.subrange(pos, pos + e.len() as int)[0]);
    match o {
        None => {
            assert(b[pos] == 0u8);
        },
        Some(a) => {
            assert(b[pos] == 1u8);
            assert(b.subrange(pos + 1, pos + 21) =~= a) by {
                assert forall|k: int| 0 <= k < 20 implies b[pos + 1 + k] == #[trigger] a[k] by {
                    assert(b.subrange(pos, pos + e.len() as int)[1 + k] == e[1 + k]);
                }
            }
        },
    }
}

/// Appends the encoding of an optional address.
pub fn encode_opt_addr_into(out: &mut Vec<u8>, o: &Option<[u8; 20]>)
    ensures
        final(out)@ == old(out)@ + enc_opt_addr(crate::types::opt_addr_view(*o)),
{
    match o {
        None => {
            out.push(0u8);
            assert(out@ =~= old(out)@ + enc_opt_addr(crate::types::opt_addr_view(*o)));
        },
        Some(a) => {
            out.push(1u8);
            encode_addr_into(out, a);
            assert(out@ =~= old(out)@ + enc_opt_addr(crate::types::opt_addr_view(*o)));
        },
    }
}

/// Reads an optional address.
pub fn decode_opt_addr(b: &Vec<u8>, pos: usize) -> (r: Option<(Option<[u8; 20]>, usize)>)
    ensures
        match r {
            Some((v, p)) => parse_opt_addr(b@, pos as int) == Some(
                (crate::types::opt_addr_view(v), p as int),
            ),
            None => parse_opt_addr(b@, pos as int) is None,
        },
{
    if pos >= b.len() {
        return None;
    }
    let tag = b[pos];
    if tag == 0u8 {
        Some((None, pos + 1))
    } else if tag == 1u8 {
        match decode_arr20(b, pos + 1) {
            None => None,
            Some((a, p)) => Some((Some(a), p)),
        }
    } else {
        None
    }
}

// ---------------------------------------------------------------------------
// Transactions
// ---------------------------------------------------------------------------

/// Whether a transaction's variable-width fields fit their length prefixes.
pub open spec fn encodable_tx(t: TxView) -> bool {
    &&& t.data.len() < 0x1_0000_0000_0000_0000
    &&& (t.sig matches Some(v) ==> v.len() < 0x1_0000_0000_0000_0000)
    &&& (t.pq_sig matches Some(v) ==> v.len() < 0x1_0000_0000_0000_0000)
    &&& (t.pq_pubkey matches Some(v) ==> v.len() < 0x1_0000_0000_0000_0000)
}

/// The canonical body serialization: every field except the hash and the
/// signature slots, in declaration order. Signatures and the transaction
/// hash are computed over these bytes.
pub open spec fn tx_body_enc(t: TxView) -> Seq<u8> {
    t.from + enc_opt_addr(t.to) + t.nonce + enc_u64(t.gas_limit) + t.max_fee_per_gas
        + t.max_priority_fee_per_gas + t.value + enc_bytes(t.data) + enc_u64(t.chain_id)
}

/// The full transaction encoding: hash, body, then the signature slots.
pub open spec fn tx_enc(t: TxView) -> Seq<u8> {
    t.hash + tx_body_enc(t) + enc_opt_bytes(t.sig) + enc_opt_bytes(t.pq_sig) + enc_opt_bytes(
        t.pq_pubkey,
    )
}

/// Parses a full transaction.
pub open spec fn parse_tx(b: Seq<u8>, pos: int) -> Option<(TxView, int)> {
    match parse_fixed(b, pos, 32) {
        None => None,
        Some((hash, p1)) => match parse_fixed(b, p1, 20) {
            None => None,
            Some((from, p2)) => match parse_opt_addr(b, p2) {
                None => None,
                Some((to, p3)) => match parse_fixed(b, p3, 32) {
                    None => None,
                    Some((nonce, p4)) => match parse_u64(b, p4) {
                        None => None,
                        Some((gas_limit, p5)) => match parse_fixed(b, p5, 32) {
                            None => None,
                            Some((max_fee, p6)) => match parse_fixed(b, p6, 32) {
                                None => None,
                                Some((max_prio, p7)) => match parse_fixed(b, p7, 32) {
                                    None => None,
                                    Some((value, p8)) => match parse_bytes(b, p8) {
                                        None => None,
                                        Some((data, p9)) => match parse_u64(b, p9) {
                                            None => None,
                                            Some((chain_id, p10)) => match parse_opt_bytes(
                                                b,
                                                p10,
                                            ) {
                                                None => None,
                                                Some((sig, p11)) => match parse_opt_bytes(
                                                    b,
                                                    p11,
                                                ) {
                                                    None => None,
                                                    Some((pq_sig, p12)) => match parse_opt_bytes(
                                                        b,
                                                        p12,
                                                    ) {
                                                        None => None,
                                                        Some((pq_pubkey, p13)) => Some(
                                                            (
                                                                TxView {
                                                                    hash,
                                                                    from,
                                                                    to,
                                                                    nonce,
                                                                    gas_limit,
                                                                    max_fee_per_gas: max_fee,
                                                                    max_priority_fee_per_gas:
                                                                        max_prio,
                                                                    value,
                                                                    data,
                                                                    chain_id,
                                                                    sig,
                                                                    pq_sig,
                                                                    pq_pubkey,
                                                                },
                                                                p13,
                                                            ),
                                                        ),
                                                    },
                                                },
                                            },
                                        },
                                    },
                                },
                            },
                        },
                    },
                },
            },
        },
    }
}

/// Appends the canonical body serialization of a transaction.
pub fn encode_tx_body_into(out: &mut Vec<u8>, t: &HybridTx)
    ensures
        final(out)@ == old(out)@ + tx_body_enc(t@),
{
    encode_addr_into(out, &t.from);
    encode_opt_addr_into(out, &t.to);
    crate::hashing::append_hash(out, &t.nonce);
    encode_u64_into(out, t.gas_limit);
    crate::hashing::append_hash(out, &t.max_fee_per_gas);
    crate::hashing::append_hash(out, &t.max_priority_fee_per_gas);
    crate::hashing::append_hash(out, &t.value);
    encode_bytes_into(out, &t.data);
    encode_u64_into(out, t.chain_id);
    assert(out@ =~= old(out)@ + tx_body_enc(t@));
}

/// The canonical body serialization of a transaction, as bytes.
pub fn encode_tx_body(t: &HybridTx) -> (r: Vec<u8>)
    ensures
        r@ == tx_body_enc(t@),
{
    let mut out: Vec<u8> = Vec::new();
    encode_tx_body_into(&mut out, t);
    assert(out@ =~= tx_body_enc(t@));
    out
}

/// Appends the full canonical encoding of a transaction.
pub fn encode_tx_into(out: &mut Vec<u8>, t: &HybridTx)
    ensures
        final(out)@ == old(out)@ + tx_enc(t@),
{
    crate::hashing::append_hash(out, &t.hash);
    encode_tx_body_into(out, t);
    encode_opt_bytes_into(out, &t.sig);
    encode_opt_bytes_into(out, &t.pq_sig);
    encode_opt_bytes_into(out, &t.pq_pubkey);
    assert(out@ =~= old(out)@ + tx_enc(t@));
}

/// The full canonical encoding of a transaction.
pub fn encode_tx(t: &HybridTx) -> (r: Vec<u8>)
    ensures
        r@ == tx_enc(t@),
{
    let mut out: Vec<u8> = Vec::new();
    encode_tx_into(&mut out, t);
    assert(out@ =~= tx_enc(t@));
    out
}

/// Reads a full transaction.
pub fn decode_tx(b: &Vec<u8>, pos: usize) -> (r: Option<(HybridTx, usize)>)
    ensures
        match r {
            Some((t, p)) => parse_tx(b@, pos as int) == Some((t@, p as int)),
            None => parse_tx(b@, pos as int) is None,
        },
{
    let (hash, p1) = match decode_arr32(b, pos) {
        None => { return None; },
        Some(x) => x,
    };
    let (from, p2) = match decode_arr20(b, p1) {
        None => { return None; },
        Some(x) => x,
    };
    let (to, p3) = match decode_opt_addr(b, p2) {
        None => { return None; },
        Some(x) => x,
    };
    let (nonce, p4) = match decode_arr32(b, p3) {
        None => { return None; },
        Some(x) => x,
    };
    let (gas_limit, p5) = match decode_u64(b, p4) {
        None => { return None; },
        Some(x) => x,
    };
    let (max_fee, p6) = match decode_arr32(b, p5) {
        None => { return None; },
        Some(x) => x,
    };
    let (max_prio, p7) = match decode_arr32(b, p6) {
        None => { return None; },
        Some(x) => x,
    };
    let (value, p8) = match decode_arr32(b, p7) {
        None => { return None; },
        Some(x) => x,
    };
    let (data, p9) = match decode_bytes(b, p8) {
        None => { return None; },
        Some(x) => x,
    };
    let (chain_id, p10) = match decode_u64(b, p9) {
        None => { return None; },
        Some(x) => x,
    };
    let (sig, p11) = match decode_opt_bytes(b, p10) {
        None => { return None; },
        Some(x) => x,
    };
    let (pq_sig, p12) = match decode_opt_bytes(b, p11) {
        None => { return None; },
        Some(x) => x,
    };
    let (pq_pubkey, p13) = match decode_opt_bytes(b, p12) {
        None => { return None; },
        Some(x) => x,
    };
    let t = HybridTx {
        hash,
        from,
        to,
        nonce,
        gas_limit,
        max_fee_per_gas: max_fee,
        max_priority_fee_per_gas: max_prio,
        value,
        data,
        chain_id,
        sig,
        pq_sig,
        pq_pubkey,
    };
    Some((t, p13))
}


/// Splits knowledge of a concatenated subrange into its two halves.
pub proof fn lemma_peel(b: Seq<u8>, pos: int, x: Seq<u8>, y: Seq<u8>)
    requires
        0 <= pos,
        pos + x.len() + y.len() <= b.len(),
        b.subrange(pos, pos + x.len() + y.len()) == x + y,
    ensures
        b.subrange(pos, pos + x.len() as int) == x,
        b.subrange(pos + x.len() as int, pos + x.len() + y.len()) == y,
{
    let xl = x.len() as int;
    let yl = y.len() as int;
    let whole = b.subrange(pos, pos + xl + yl);
    assert(b.subrange(pos, pos + xl) =~= x) by {
        assert forall|k: int| 0 <= k < xl implies b[pos + k] == x[k] by {
            assert(whole[k] == b[pos + k]);
            assert((x + y)[k] == x[k]);
        }
    }
    assert(b.subrange(pos + xl, pos + xl + yl) =~= y) by {
        assert forall|k: int| 0 <= k < yl implies b[pos + xl + k] == y[k] by {
            assert(whole[xl + k] == b[pos + xl + k]);
            assert((x + y)[xl + k] == y[k]);
        }
    }
}

/// Round trip for transactions: parsing an encoding, wherever it stands in a
/// larger buffer, yields the original transaction.
pub proof fn lemma_parse_tx_at(b: Seq<u8>, pos: int, t: TxView)
    requires
        t.wf(),
        encodable_tx(t),
        0 <= pos,
        pos + tx_enc(t).len() <= b.len(),
        b.subrange(pos, pos + tx_enc(t).len() as int) == tx_enc(t),
    ensures
        parse_tx(b, pos) == Some((t, pos + tx_enc(t).len())),
{
    let e = tx_enc(t);
    let n = e.len() as int;
    let hash = t.hash;
    let body = tx_body_enc(t);
    let esig = enc_opt_bytes(t.sig);
    let epqs = enc_opt_bytes(t.pq_sig);
    let epqk = enc_opt_bytes(t.pq_pubkey);
    // Peel the top-level concatenation from the right.
    lemma_peel(b, pos, hash + body + esig + epqs, epqk);
    lemma_peel(b, pos, hash + body + esig, epqs);
    lemma_peel(b, pos, hash + body, esig);
    lemma_peel(b, pos, hash, body);
    let o1 = pos + 32;
    let obody = o1 + body.len() as int;
    // Peel the body fields from the right.
    let f1 = t.from;
    let f2 = enc_opt_addr(t.to);
    let f3 = t.nonce;
    let f4 = enc_u64(t.gas_limit);
    let f5 = t.max_fee_per_gas;
    let f6 = t.max_priority_fee_per_gas;
    let f7 = t.value;
    let f8 = enc_bytes(t.data);
    let f9 = enc_u64(t.chain_id);
    lemma_peel(b, o1, f1 + f2 + f3 + f4 + f5 + f6 + f7 + f8, f9);
    lemma_peel(b, o1, f1 + f2 + f3 + f4 + f5 + f6 + f7, f8);
    lemma_peel(b, o1, f1 + f2 + f3 + f4 + f5 + f6, f7);
    lemma_peel(b, o1, f1 + f2 + f3 + f4 + f5, f6);
    lemma_peel(b, o1, f1 + f2 + f3 + f4, f5);
    lemma_peel(b, o1, f1 + f2 + f3, f4);
    lemma_peel(b, o1, f1 + f2, f3);
    lemma_peel(b, o1, f1, f2);
    let o2 = o1 + 20;
    let o3 = o2 + f2.len() as int;
    let o4 = o3 + 32;
    let o5 = o4 + 8;
    let o6 = o5 + 32;
    let o7 = o6 + 32;
    let o8 = o7 + 32;
    let o9 = o8 + f8.len() as int;
    let o10 = o9 + 8;
    let o11 = o10 + esig.len() as int;
    let o12 = o11 + epqs.len() as int;
    let o13 = o12 + epqk.len() as int;
    assert(o13 == pos + n);
    assert(parse_fixed(b, pos, 32) == Some((t.hash, o1)));
    assert(parse_fixed(b, o1, 20) == Some((t.from, o2)));
    lemma_parse_opt_addr_at(b, o2, t.to);
    assert(parse_fixed(b, o3, 32) == Some((t.nonce, o4)));
    lemma_parse_u64_at(b, o4, t.gas_limit);
    assert(parse_fixed(b, o5, 32) == Some((t.max_fee_per_gas, o6)));
    assert(parse_fixed(b, o6, 32) == Some((t.max_priority_fee_per_gas, o7)));
    assert(parse_fixed(b, o7, 32) == Some((t.value, o8)));
    lemma_parse_bytes_at(b, o8, t.data);
    lemma_parse_u64_at(b, o9, t.chain_id);
    lemma_parse_opt_bytes_at(b, o10, t.sig);
    lemma_parse_opt_bytes_at(b, o11, t.pq_sig);
    lemma_parse_opt_bytes_at(b, o12, t.pq_pubkey);
}

/// Round trip for transactions, from the start of a buffer.
pub proof fn lemma_tx_round_trip(t: TxView, rest: Seq<u8>)
    requires
        t.wf(),
        encodable_tx(t),
    ensures
        parse_tx(tx_enc(t) + rest, 0) == Some((t, tx_enc(t).len() as int)),
{
    let b = tx_enc(t) + rest;
    assert(b.subrange(0, tx_enc(t).len() as int) =~= tx_enc(t));
    lemma_parse_tx_at(b, 0, t);
}

// ---------------------------------------------------------------------------
// Transaction lists
// ---------------------------------------------------------------------------

/// Whether every transaction in a list is well-formed and encodable.
pub open spec fn wf_txs(s: Seq<TxView>) -> bool {
    forall|i: int| 0 <= i < s.len() ==> (#[trigger] s[i]).wf() && encodable_tx(s[i])
}

/// Concatenated encodings of a transaction list, in order.
pub open spec fn txs_enc(s: Seq<TxView>) -> Seq<u8>
    decreases s.len(),
{
    if s.len() == 0 {
        Seq::empty()
    } else {
        tx_enc(s.first()) + txs_enc(s.drop_first())
    }
}

pub proof fn lemma_txs_enc_append(a: Seq<TxView>, b: Seq<TxView>)
    ensures
        txs_enc(a + b) == txs_enc(a) + txs_enc(b),
    decreases a.len(),
{
    if a.len() == 0 {
        assert(a + b =~= b);
        assert(txs_enc(a) + txs_enc(b) =~= txs_enc(b));
    } else {
        assert((a + b).drop_first() =~= a.drop_first() + b);
        lemma_txs_enc_append(a.drop_first(), b);
        assert(txs_enc(a + b) =~= txs_enc(a) + txs_enc(b));
    }
}

/// Parses `n` consecutive transactions.
pub open spec fn parse_txs(b: Seq<u8>, pos: int, n: nat) -> Option<(Seq<TxView>, int)>
    decreases n,
{
    if n == 0 {
        Some((Seq::empty(), pos))
    } else {
        match parse_tx(b, pos) {
            None => None,
            Some((t, p)) => match parse_txs(b, p, (n - 1) as nat) {
                None => None,
                Some((s, p2)) => Some((seq![t] + s, p2)),
            },
        }
    }
}

pub proof fn lemma_parse_txs_at(b: Seq<u8>, pos: int, s: Seq<TxView>)
    requires
        wf_txs(s),
        0 <= pos,
        pos + txs_enc(s).len() <= b.len(),
        b.subrange(pos, pos + txs_enc(s).len() as int) == txs_enc(s),
    ensures
        parse_txs(b, pos, s.len()) == Some((s, pos + txs_enc(s).len())),
    decreases s.len(),
{
    if s.len() == 0 {
        assert(txs_enc(s).len() == 0);
    } else {
        let first = s.first();
        let rest = s.drop_first();
        lemma_peel(b, pos, tx_enc(first), txs_enc(rest));
        lemma_parse_tx_at(b, pos, first);
        let p1 = pos + tx_enc(first).len() as int;
        assert(rest.len() < s.len());
        lemma_parse_txs_at(b, p1, rest);
        assert(seq![first] + rest =~= s);
    }
}

/// Appends the concatenated encodings of a transaction list.
pub fn encode_txs_into(out: &mut Vec<u8>, txs: &Vec<HybridTx>)
    ensures
        final(out)@ == old(out)@ + txs_enc(txs.deep_view()),
{
    let mut i: usize = 0;
    while i < txs.len()
        invariant
            i <= txs.len(),
            out@ == old(out)@ + txs_enc(txs.deep_view().take(i as int)),
        decreases txs.len() - i,
    {
        let ghost pre = txs.deep_view().take(i as int);
        encode_tx_into(out, &txs[i]);
        i = i + 1;
        proof {
            let one = seq![txs.deep_view()[i - 1]];
            assert(txs.deep_view().take(i as int) =~= pre + one);
            lemma_txs_enc_append(pre, one);
            assert(one.drop_first() =~= Seq::<TxView>::empty());
            assert(txs_enc(Seq::<TxView>::empty()) =~= Seq::<u8>::empty());
            assert(txs_enc(one) =~= tx_enc(txs.deep_view()[i - 1]));
            assert(out@ =~= old(out)@ + txs_enc(txs.deep_view().take(i as int)));
        }
    }
    assert(txs.deep_view().take(txs.len() as int) =~= txs.deep_view());
}

/// Reads `n` consecutive transactions.
pub fn decode_txs(b: &Vec<u8>, pos: usize, n: u64) -> (r: Option<(Vec<HybridTx>, usize)>)
    ensures
        match r {
            Some((v, p)) => parse_txs(b@, pos as int, n as nat) == Some((v.deep_view(), p as int)),
            None => parse_txs(b@, pos as int, n as nat) is None,
        },
{
    let mut acc: Vec<HybridTx> = Vec::new();
    let mut p: usize = pos;
    let mut i: u64 = 0;
    while i < n
        invariant
            i <= n,
            parse_txs(b@, pos as int, n as nat) == (match parse_txs(b@, p as int, (n - i) as nat) {
                None => None::<(Seq<TxView>, int)>,
                Some((s, p2)) => Some((acc.deep_view() + s, p2)),
            }),
        decreases n - i,
    {
        let ghost rem = (n - i) as nat;
        let (t, p1) = match decode_tx(b, p) {
            None => {
                assert(parse_txs(b@, p as int, rem) is None);
                return None;
            },
            Some(x) => x,
        };
        let ghost old_acc = acc.deep_view();
        acc.push(t);
        proof {
            assert(acc.deep_view() =~= old_acc + seq![t@]);
        }
        p = p1;
        i = i + 1;
        proof {
            let rem1 = (n - i) as nat;
            match parse_txs(b@, p as int, rem1) {
                None => {},
                Some((s, p2)) => {
                    assert(old_acc + (seq![t@] + s) =~= acc.deep_view() + s);
                },
            }
        }
    }
    proof {
        assert(parse_txs(b@, p as int, 0) == Some((Seq::<TxView>::empty(), p as int)));
        assert(acc.deep_view() + Seq::<TxView>::empty() =~= acc.deep_view());
    }
    Some((acc, p))
}

// ---------------------------------------------------------------------------
// Headers and blocks
// ---------------------------------------------------------------------------

/// Whether a header's fixed-width fields have their widths.
pub open spec fn wf_header(h: HeaderView) -> bool {
    &&& h.hash.len() == 32
    &&& h.parent_hash.len() == 32
    &&& h.state_root.len() == 32
    &&& h.tx_root.len() == 32
}

/// Encoding of a block header.
pub open spec fn header_enc(h: HeaderView) -> Seq<u8> {
    enc_u64(h.number) + h.hash + h.parent_hash + h.state_root + h.tx_root + enc_u64(h.timestamp)
}

/// Parses a block header.
pub open spec fn parse_header(b: Seq<u8>, pos: int) -> Option<(HeaderView, int)> {
    match parse_u64(b, pos) {
        None => None,
        Some((number, p1)) => match parse_fixed(b, p1, 32) {
            None => None,
            Some((hash, p2)) => match parse_fixed(b, p2, 32) {
                None => None,
                Some((parent_hash, p3)) => match parse_fixed(b, p3, 32) {
                    None => None,
                    Some((state_root, p4)) => match parse_fixed(b, p4, 32) {
                        None => None,
                        Some((tx_root, p5)) => match parse_u64(b, p5) {
                            None => None,
                            Some((timestamp, p6)) => Some(
                                (
                                    HeaderView {
                                        number,
                                        hash,
                                        parent_hash,
                                        state_root,
                                        tx_root,
                                        timestamp,
                                    },
                                    p6,
                                ),
                            ),
                        },
                    },
                },
            },
        },
    }
}

pub proof fn lemma_parse_header_at(b: Seq<u8>, pos: int, h: HeaderView)
    requires
        wf_header(h),
        0 <= pos,
        pos + header_enc(h).len() <= b.len(),
        b.subrange(pos, pos + header_enc(h).len() as int) == header_enc(h),
    ensures
        parse_header(b, pos) == Some((h, pos + header_enc(h).len())),
        header_enc(h).len() == 144,
{
    let f1 = enc_u64(h.number);
    let f6 = enc_u64(h.timestamp);
    lemma_peel(b, pos, f1 + h.hash + h.parent_hash + h.state_root + h.tx_root, f6);
    lemma_peel(b, pos, f1 + h.hash + h.parent_hash + h.state_root, h.tx_root);
    lemma_peel(b, pos, f1 + h.hash + h.parent_hash, h.state_root);
    lemma_peel(b, pos, f1 + h.hash, h.parent_hash);
    lemma_peel(b, pos, f1, h.hash);
    let o1 = pos + 8;
    let o2 = o1 + 32;
    let o3 = o2 + 32;
    let o4 = o3 + 32;
    let o5 = o4 + 32;
    let o6 = o5 + 8;
    lemma_parse_u64_at(b, pos, h.number);
    assert(parse_fixed(b, o1, 32) == Some((h.hash, o2)));
    assert(parse_fixed(b, o2, 32) == Some((h.parent_hash, o3)));
    assert(parse_fixed(b, o3, 32) == Some((h.state_root, o4)));
    assert(parse_fixed(b, o4, 32) == Some((h.tx_root, o5)));
    lemma_parse_u64_at(b, o5, h.timestamp);
}

/// Appends the encoding of a block header.
pub fn encode_header_into(out: &mut Vec<u8>, h: &BlockHeader)
    ensures
        final(out)@ == old(out)@ + header_enc(h@),
{
    encode_u64_into(out, h.number);
    crate::hashing::append_hash(out, &h.hash);
    crate::hashing::append_hash(out, &h.parent_hash);
    crate::hashing::append_hash(out, &h.state_root);
    crate::hashing::append_hash(out, &h.tx_root);
    encode_u64_into(out, h.timestamp);
    assert(out@ =~= old(out)@ + header_enc(h@));
}

/// The encoding of a block header, as bytes.
pub fn encode_header(h: &BlockHeader) -> (r: Vec<u8>)
    ensures
        r@ == header_enc(h@),
{
    let mut out: Vec<u8> = Vec::new();
    encode_header_into(&mut out, h);
    assert(out@ =~= header_enc(h@));
    out
}

/// Reads a block header.
pub fn decode_header(b: &Vec<u8>, pos: usize) -> (r: Option<(BlockHeader, usize)>)
    ensures
        match r {
            Some((h, p)) => parse_header(b@, pos as int) == Some((h@, p as int)),
            None => parse_header(b@, pos as int) is None,
        },
{
    let (number, p1) = match decode_u64(b, pos) {
        None => { return None; },
        Some(x) => x,
    };
    let (hash, p2) = match decode_arr32(b, p1) {
        None => { return None; },
        Some(x) => x,
    };
    let (parent_hash, p3) = match decode_arr32(b, p2) {
        None => { return None; },
        Some(x) => x,
    };
    let (state_root, p4) = match decode_arr32(b, p3) {
        None => { return None; },
        Some(x) => x,
    };
    let (tx_root, p5) = match decode_arr32(b, p4) {
        None => { return None; },
        Some(x) => x,
    };
    let (timestamp, p6) = match decode_u64(b, p5) {
        None => { return None; },
        Some(x) => x,
    };
    Some((BlockHeader { number, hash, parent_hash, state_root, tx_root, timestamp }, p6))
}

/// Whether a block can be encoded faithfully.
pub open spec fn encodable_block(v: BlockView) -> bool {
    &&& wf_header(v.header)
    &&& v.txs.len() < 0x1_0000_0000_0000_0000
    &&& wf_txs(v.txs)
}

/// Encoding of a block: its header, a transaction count, the transactions.
pub open spec fn block_enc(v: BlockView) -> Seq<u8> {
    header_enc(v.header) + enc_u64(v.txs.len() as u64) + txs_enc(v.txs)
}

/// Parses a block.
pub open spec fn parse_block(b: Seq<u8>, pos: int) -> Option<(BlockView, int)> {
    match parse_header(b, pos) {
        None => None,
        Some((h, p1)) => match parse_u64(b, p1) {
            None => None,
            Some((n, p2)) => match parse_txs(b, p2, n as nat) {
                None => None,
                Some((txs, p3)) => Some((BlockView { header: h, txs }, p3)),
            },
        },
    }
}

pub proof fn lemma_parse_block_at(b: Seq<u8>, pos: int, v: BlockView)
    requires
        encodable_block(v),
        0 <= pos,
        pos + block_enc(v).len() <= b.len(),
        b.subrange(pos, pos + block_enc(v).len() as int) == block_enc(v),
    ensures
        parse_block(b, pos) == Some((v, pos + block_enc(v).len())),
{
    let eh = header_enc(v.header);
    let en = enc_u64(v.txs.len() as u64);
    let et = txs_enc(v.txs);
    lemma_peel(b, pos, eh + en, et);
    lemma_peel(b, pos, eh, en);
    lemma_parse_header_at(b, pos, v.header);
    let p1 = pos + eh.len() as int;
    lemma_parse_u64_at(b, p1, v.txs.len() as u64);
    let p2 = p1 + 8;
    lemma_parse_txs_at(b, p2, v.txs);
}

/// Round trip for blocks.
pub proof fn lemma_block_round_trip(v: BlockView, rest: Seq<u8>)
    requires
        encodable_block(v),
    ensures
        parse_block(block_enc(v) + rest, 0) == Some((v, block_enc(v).len() as int)),
{
    let b = block_enc(v) + rest;
    assert(b.subrange(0, block_enc(v).len() as int) =~= block_enc(v));
    lemma_parse_block_at(b, 0, v);
}

/// The canonical encoding of a block.
pub fn encode_block(blk: &Block) -> (r: Vec<u8>)
    ensures
        r@ == block_enc(blk@),
{
    let mut out: Vec<u8> = Vec::new();
    encode_header_into(&mut out, &blk.header);
    encode_u64_into(&mut out, blk.txs.len() as u64);
    encode_txs_into(&mut out, &blk.txs);
    assert(out@ =~= block_enc(blk@));
    out
}

/// Reads a block.
pub fn decode_block(b: &Vec<u8>, pos: usize) -> (r: Option<(Block, usize)>)
    ensures
        match r {
            Some((blk, p)) => parse_block(b@, pos as int) == Some((blk@, p as int)),
            None => parse_block(b@, pos as int) is None,
        },
{
    let (header, p1) = match decode_header(b, pos) {
        None => { return None; },
        Some(x) => x,
    };
    let (n, p2) = match decode_u64(b, p1) {
        None => { return None; },
        Some(x) => x,
    };
    let (txs, p3) = match decode_txs(b, p2, n) {
        None => { return None; },
        Some(x) => x,
    };
    Some((Block { header, txs }, p3))
}

// ---------------------------------------------------------------------------
// Batches
// ---------------------------------------------------------------------------

/// Concatenated encodings of a list of batch identifiers.
pub open spec fn ids_enc(s: Seq<u128>) -> Seq<u8>
    decreases s.len(),
{
    if s.len() == 0 {
        Seq::empty()
    } else {
        enc_u128(s.first()) + ids_enc(s.drop_first())
    }
}

pub proof fn lemma_ids_enc_append(a: Seq<u128>, b: Seq<u128>)
    ensures
        ids_enc(a + b) == ids_enc(a) + ids_enc(b),
    decreases a.len(),
{
    if a.len() == 0 {
        assert(a + b =~= b);
        assert(ids_enc(a) + ids_enc(b) =~= ids_enc(b));
    } else {
        assert((a + b).drop_first() =~= a.drop_first() + b);
        lemma_ids_enc_append(a.drop_first(), b);
        assert(ids_enc(a + b) =~= ids_enc(a) + ids_enc(b));
    }
}

/// Parses `n` consecutive batch identifiers.
pub open spec fn parse_ids(b: Seq<u8>, pos: int, n: nat) -> Option<(Seq<u128>, int)>
    decreases n,
{
    if n == 0 {
        Some((Seq::empty(), pos))
    } else {
        match parse_u128(b, pos) {
            None => None,
            Some((x, p)) => match parse_ids(b, p, (n - 1) as nat) {
                None => None,
                Some((s, p2)) => Some((seq![x] + s, p2)),
            },
        }
    }
}

pub proof fn lemma_parse_ids_at(b: Seq<u8>, pos: int, s: Seq<u128>)
    requires
        0 <= pos,
        pos + ids_enc(s).len() <= b.len(),
        b.subrange(pos, pos + ids_enc(s).len() as int) == ids_enc(s),
    ensures
        parse_ids(b, pos, s.len()) == Some((s, pos + ids_enc(s).len())),
    decreases s.len(),
{
    if s.len() == 0 {
    } else {
        let first = s.first();
        let rest = s.drop_first();
        lemma_peel(b, pos, enc_u128(first), ids_enc(rest));
        lemma_parse_u128_at(b, pos, first);
        let p1 = pos + 16;
        lemma_parse_ids_at(b, p1, rest);
        assert(seq![first] + rest =~= s);
    }
}

/// Appends the encodings of a list of batch identifiers.
pub fn encode_ids_into(out: &mut Vec<u8>, ids: &Vec<u128>)
    ensures
        final(out)@ == old(out)@ + ids_enc(ids@),
{
    let mut i: usize = 0;
    while i < ids.len()
        invariant
            i <= ids.len(),
            out@ == old(out)@ + ids_enc(ids@.take(i as int)),
        decreases ids.len() - i,
    {
        let ghost pre = ids@.take(i as int);
        encode_u128_into(out, ids[i]);
        i = i + 1;
        proof {
            let one = seq![ids@[i - 1]];
            assert(ids@.take(i as int) =~= pre + one);
            lemma_ids_enc_append(pre, one);
            assert(one.drop_first() =~= Seq::<u128>::empty());
            assert(ids_enc(Seq::<u128>::empty()) =~= Seq::<u8>::empty());
            assert(ids_enc(one) =~= enc_u128(ids@[i - 1]));
            assert(out@ =~= old(out)@ + ids_enc(ids@.take(i as int)));
        }
    }
    assert(ids@.take(ids.len() as int) =~= ids@);
}

/// Reads `n` consecutive batch identifiers.
pub fn decode_ids(b: &Vec<u8>, pos: usize, n: u64) -> (r: Option<(Vec<u128>, usize)>)
    ensures
        match r {
            Some((v, p)) => parse_ids(b@, pos as int, n as nat) == Some((v@, p as int)),
            None => parse_ids(b@, pos as int, n as nat) is None,
        },
{
    let mut acc: Vec<u128> = Vec::new();
    let mut p: usize = pos;
    let mut i: u64 = 0;
    while i < n
        invariant
            i <= n,
            parse_ids(b@, pos as int, n as nat) == (match parse_ids(b@, p as int, (n - i) as nat) {
                None => None::<(Seq<u128>, int)>,
                Some((s, p2)) => Some((acc@ + s, p2)),
            }),
        decreases n - i,
    {
        let (x, p1) = match decode_u128(b, p) {
            None => {
                return None;
            },
            Some(y) => y,
        };
        let ghost old_acc = acc@;
        acc.push(x);
        proof {
            assert(acc@ =~= old_acc + seq![x]);
        }
        p = p1;
        i = i + 1;
        proof {
            match parse_ids(b@, p as int, (n - i) as nat) {
                None => {},
                Some((s, p2)) => {
                    assert(old_acc + (seq![x] + s) =~= acc@ + s);
                },
            }
        }
    }
    proof {
        assert(acc@ + Seq::<u128>::empty() =~= acc@);
    }
    Some((acc, p))
}

/// Whether a batch can be encoded faithfully.
pub open spec fn encodable_batch(v: BatchView) -> bool {
    &&& v.author.len() < 0x1_0000_0000_0000_0000
    &&& v.parents.len() < 0x1_0000_0000_0000_0000
    &&& v.txs.len() < 0x1_0000_0000_0000_0000
    &&& wf_txs(v.txs)
}

/// Encoding of a batch: identifier, round, author, parents, transactions.
pub open spec fn batch_enc(v: BatchView) -> Seq<u8> {
    enc_u128(v.id) + enc_u64(v.round) + enc_bytes(v.author) + enc_u64(v.parents.len() as u64)
        + ids_enc(v.parents) + enc_u64(v.txs.len() as u64) + txs_enc(v.txs)
}

/// Parses a batch.
pub open spec fn parse_batch(b: Seq<u8>, pos: int) -> Option<(BatchView, int)> {
    match parse_u128(b, pos) {
        None => None,
        Some((id, p1)) => match parse_u64(b, p1) {
            None => None,
            Some((round, p2)) => match parse_bytes(b, p2) {
                None => None,
                Some((author, p3)) => match parse_u64(b, p3) {
                    None => None,
                    Some((np, p4)) => match parse_ids(b, p4, np as nat) {
                        None => None,
                        Some((parents, p5)) => match parse_u64(b, p5) {
                            None => None,
                            Some((nt, p6)) => match parse_txs(b, p6, nt as nat) {
                                None => None,
                                Some((txs, p7)) => Some(
                                    (BatchView { id, round, author, parents, txs }, p7),
                                ),
                            },
                        },
                    },
                },
            },
        },
    }
}

pub proof fn lemma_parse_batch_at(b: Seq<u8>, pos: int, v: BatchView)
    requires
        encodable_batch(v),
        0 <= pos,
        pos + batch_enc(v).len() <= b.len(),
        b.subrange(pos, pos + batch_enc(v).len() as int) == batch_enc(v),
    ensures
        parse_batch(b, pos) == Some((v, pos + batch_enc(v).len())),
{
    let f1 = enc_u128(v.id);
    let f2 = enc_u64(v.round);
    let f3 = enc_bytes(v.author);
    let f4 = enc_u64(v.parents.len() as u64);
    let f5 = ids_enc(v.parents);
    let f6 = enc_u64(v.txs.len() as u64);
    let f7 = txs_enc(v.txs);
    lemma_peel(b, pos, f1 + f2 + f3 + f4 + f5 + f6, f7);
    lemma_peel(b, pos, f1 + f2 + f3 + f4 + f5, f6);
    lemma_peel(b, pos, f1 + f2 + f3 + f4, f5);
    lemma_peel(b, pos, f1 + f2 + f3, f4);
    lemma_peel(b, pos, f1 + f2, f3);
    lemma_peel(b, pos, f1, f2);
    let o1 = pos + 16;
    let o2 = o1 + 8;
    let o3 = o2 + f3.len() as int;
    let o4 = o3 + 8;
    let o5 = o4 + f5.len() as int;
    let o6 = o5 + 8;
    let o7 = o6 + f7.len() as int;
    lemma_parse_u128_at(b, pos, v.id);
    lemma_parse_u64_at(b, o1, v.round);
    lemma_parse_bytes_at(b, o2, v.author);
    lemma_parse_u64_at(b, o3, v.parents.len() as u64);
    lemma_parse_ids_at(b, o4, v.parents);
    lemma_parse_u64_at(b, o5, v.txs.len() as u64);
    lemma_parse_txs_at(b, o6, v.txs);
}

/// Round trip for batches.
pub proof fn lemma_batch_round_trip(v: BatchView, rest: Seq<u8>)
    requires
        encodable_batch(v),
    ensures
        parse_batch(batch_enc(v) + rest, 0) == Some((v, batch_enc(v).len() as int)),
{
    let b = batch_enc(v) + rest;
    assert(b.subrange(0, batch_enc(v).len() as int) =~= batch_enc(v));
    lemma_parse_batch_at(b, 0, v);
}

/// The canonical encoding of a batch.
pub fn encode_batch(v: &NarwhalBatch) -> (r: Vec<u8>)
    ensures
        r@ == batch_enc(v@),
{
    let mut out: Vec<u8> = Vec::new();
    encode_u128_into(&mut out, v.id);
    encode_u64_into(&mut out, v.round);
    encode_bytes_into(&mut out, &v.author);
    encode_u64_into(&mut out, v.parents.len() as u64);
    encode_ids_into(&mut out, &v.parents);
    encode_u64_into(&mut out, v.txs.len() as u64);
    encode_txs_into(&mut out, &v.txs);
    assert(out@ =~= batch_enc(v@));
    out
}

/// Reads a batch.
pub fn decode_batch(b: &Vec<u8>, pos: usize) -> (r: Option<(NarwhalBatch, usize)>)
    ensures
        match r {
            Some((v, p)) => parse_batch(b@, pos as int) == Some((v@, p as int)),
            None => parse_batch(b@, pos as int) is None,
        },
{
    let (id, p1) = match decode_u128(b, pos) {
        None => { return None; },
        Some(x) => x,
    };
    let (round, p2) = match decode_u64(b, p1) {
        None => { return None; },
        Some(x) => x,
    };
    let (author, p3) = match decode_bytes(b, p2) {
        None => { return None; },
        Some(x) => x,
    };
    let (np, p4) = match decode_u64(b, p3) {
        None => { return None; },
        Some(x) => x,
    };
    let (parents, p5) = match decode_ids(b, p4, np) {
        None => { return None; },
        Some(x) => x,
    };
    let (nt, p6) = match decode_u64(b, p5) {
        None => { return None; },
        Some(x) => x,
    };
    let (txs, p7) = match decode_txs(b, p6, nt) {
        None => { return None; },
        Some(x) => x,
    };
    Some((NarwhalBatch { id, round, author, parents, txs }, p7))
}

// ---------------------------------------------------------------------------
// Gossip envelope
// ---------------------------------------------------------------------------

/// Encoding of a gossiped consensus input: a tag byte, then the payload.
pub open spec fn input_enc(v: crate::types::InputView) -> Seq<u8> {
    match v {
        crate::types::InputView::NewTx(t) => seq![0u8] + tx_enc(t),
        crate::types::InputView::NarwhalBatch(b) => seq![1u8] + batch_enc(b),
    }
}

/// Parses a gossiped consensus input; the whole buffer must be consumed.
pub open spec fn parse_input(b: Seq<u8>) -> Option<crate::types::InputView> {
    if b.len() < 1 {
        None
    } else if b[0] == 0u8 {
        match parse_tx(b, 1) {
            None => None,
            Some((t, p)) => if p == b.len() {
                Some(crate::types::InputView::NewTx(t))
            } else {
                None
            },
        }
    } else if b[0] == 1u8 {
        match parse_batch(b, 1) {
            None => None,
            Some((v, p)) => if p == b.len() {
                Some(crate::types::InputView::NarwhalBatch(v))
            } else {
                None
            },
        }
    } else {
        None
    }
}

/// Round trip for the gossip envelope.
pub proof fn lemma_input_round_trip(v: crate::types::InputView)
    requires
        (v matches crate::types::InputView::NewTx(t) ==> t.wf() && encodable_tx(t)),
        (v matches crate::types::InputView::NarwhalBatch(b) ==> encodable_batch(b)),
    ensures
        parse_input(input_enc(v)) == Some(v),
{
    let b = input_enc(v);
    match v {
        crate::types::InputView::NewTx(t) => {
            assert(b[0] == 0u8);
            assert(b.subrange(1, 1 + tx_enc(t).len() as int) =~= tx_enc(t));
            lemma_parse_tx_at(b, 1, t);
        },
        crate::types::InputView::NarwhalBatch(v2) => {
            assert(b[0] == 1u8);
            assert(b.subrange(1, 1 + batch_enc(v2).len() as int) =~= batch_enc(v2));
            lemma_parse_batch_at(b, 1, v2);
        },
    }
}

/// Encodes a consensus input for gossip.
pub fn encode_input(v: &crate::types::ConsensusInput) -> (r: Vec<u8>)
    ensures
        r@ == input_enc(v@),
{
    match v {
        crate::types::ConsensusInput::NewTx(t) => {
            let mut out: Vec<u8> = Vec::new();
            out.push(0u8);
            encode_tx_into(&mut out, t);
            assert(out@ =~= input_enc(v@));
            out
        },
        crate::types::ConsensusInput::NarwhalBatch(nb) => {
            let mut out: Vec<u8> = Vec::new();
            out.push(1u8);
            let eb = encode_batch(nb);
            let mut i: usize = 0;
            let ghost pre = out@;
            while i < eb.len()
                invariant
                    i <= eb.len(),
                    out@ == pre + eb@.take(i as int),
                decreases eb.len() - i,
            {
                out.push(eb[i]);
                i = i + 1;
                assert(out@ =~= pre + eb@.take(i as int));
            }
            assert(eb@.take(eb.len() as int) =~= eb@);
            assert(out@ =~= input_enc(v@));
            out
        },
    }
}

/// Decodes a gossiped consensus input.
pub fn decode_input(b: &Vec<u8>) -> (r: Option<crate::types::ConsensusInput>)
    ensures
        match r {
            Some(v) => parse_input(b@) == Some(v@),
            None => parse_input(b@) is None,
        },
{
    if b.len() < 1 {
        return None;
    }
    let tag = b[0];
    if tag == 0u8 {
        match decode_tx(b, 1) {
            None => None,
            Some((t, p)) => {
                if p == b.len() {
                    Some(crate::types::ConsensusInput::NewTx(t))
                } else {
                    None
                }
            },
        }
    } else if tag == 1u8 {
        match decode_batch(b, 1) {
            None => None,
            Some((v, p)) => {
                if p == b.len() {
                    Some(crate::types::ConsensusInput::NarwhalBatch(v))
                } else {
                    None
                }
            },
        }
    } else {
        None
    }
}

} // verus!
