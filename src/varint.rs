//! LEB128 variable-length integers, as protobuf writes them.
use vstd::arithmetic::power2::{lemma2_to64, lemma2_to64_rest, lemma_pow2_adds, pow2};
use vstd::prelude::*;

verus! {

/// The canonical encoding of `v`: seven bits per byte, least significant
/// group first, high bit set on every byte but the last.
pub open spec fn varint(v: nat) -> Seq<u8>
    decreases v,
{
    if v < 128 {
        seq![v as u8]
    } else {
        seq![(v % 128 + 128) as u8] + varint(v / 128)
    }
}

/// Reads a varint from the front of `s`, where `k` bytes of it were already
/// read: at most ten bytes in all, and a tenth byte may only carry the top
/// bit of a 64-bit value. Gives the value and the number of bytes read.
pub open spec fn leb128(s: Seq<u8>, k: nat) -> Option<(int, nat)>
    decreases 10 - k,
{
    if k >= 10 || s.len() == 0 {
        None
    } else if s[0] < 128 {
        if k == 9 && s[0] >= 2 {
            None
        } else {
            Some((s[0] as int, 1))
        }
    } else {
        match leb128(s.drop_first(), k + 1) {
            Some((v, n)) => Some((s[0] - 128 + 128 * v, n + 1)),
            None => None,
        }
    }
}

/// The varint at the front of `s`, as a value and a length in bytes.
pub open spec fn read_varint_spec(s: Seq<u8>) -> Option<(u64, nat)> {
    match leb128(s, 0) {
        Some((v, n)) => Some((v as u64, n)),
        None => None,
    }
}

/// Relies on prost::encoding::encode_varint: appends the canonical LEB128
/// encoding of `v` to the buffer.
#[verifier::external_body]
pub fn put_varint(v: u64, buf: &mut Vec<u8>)
    ensures
        final(buf)@ == old(buf)@ + varint(v as nat),
{
    prost::encoding::encode_varint(v, buf)
}

/// Relies on prost::encoding::decode_varint on a byte slice: reads at most ten
/// bytes and fails on a missing final byte or a value past 64 bits. Gives the
/// value and the number of bytes left after it.
#[verifier::external_body]
pub fn read_varint(s: &[u8]) -> (r: Option<(u64, usize)>)
    ensures
        match read_varint_spec(s@) {
            Some((v, n)) => r == Some((v, (s@.len() - n) as usize)),
            None => r is None,
        },
{
    let mut cur: &[u8] = s;
    prost::encoding::decode_varint(&mut cur).ok().map(|v| (v, cur.len()))
}

/// A varint that reads takes at least one byte of the input, and no more
/// than the input holds.
pub proof fn lemma_read_varint_bounds(s: Seq<u8>)
    ensures
        read_varint_spec(s) matches Some((_, n)) ==> 1 <= n <= s.len(),
{
    lemma_leb128_bounds(s, 0);
}

proof fn lemma_leb128_bounds(s: Seq<u8>, k: nat)
    ensures
        leb128(s, k) matches Some((_, n)) ==> 1 <= n <= s.len(),
    decreases 10 - k,
{
    if k < 10 && s.len() > 0 && s[0] >= 128 {
        lemma_leb128_bounds(s.drop_first(), k + 1);
    }
}

/// A varint takes at least one byte, and at most ten for a 64-bit value.
pub proof fn lemma_varint_len(v: u64)
    ensures
        1 <= varint(v as nat).len() <= 10,
{
    lemma2_to64_rest();
    lemma2_to64();
    lemma_pow2_adds(7, 63);
    lemma_varint_len_bound(v as nat, 10);
}

proof fn lemma_varint_len_bound(v: nat, n: nat)
    requires
        1 <= n,
        v < pow2(7 * n),
    ensures
        1 <= varint(v).len() <= n,
    decreases n,
{
    if v >= 128 {
        lemma2_to64();
        if n == 1 {
            assert(false);
        } else {
            lemma_pow2_adds(7, (7 * (n - 1)) as nat);
            assert(v / 128 < pow2((7 * (n - 1)) as nat)) by (nonlinear_arith)
                requires v < 128 * pow2((7 * (n - 1)) as nat);
            lemma_varint_len_bound(v / 128, (n - 1) as nat);
        }
    }
}

/// Reading back the canonical encoding of a value that fits in what is left
/// of ten bytes gives the value and consumes exactly its bytes.
pub proof fn lemma_leb128_varint(v: nat, k: nat, rest: Seq<u8>)
    requires
        k <= 9,
        v < pow2((64 - 7 * k) as nat),
    ensures
        leb128(varint(v) + rest, k) == Some((v as int, varint(v).len())),
    decreases v,
{
    let s = varint(v) + rest;
    if v < 128 {
        assert(s[0] == v as u8);
        if k == 9 {
            lemma2_to64();
        }
    } else {
        if k == 9 {
            lemma2_to64();
        }
        assert(k < 9);
        let e = (64 - 7 * (k + 1)) as nat;
        lemma_pow2_adds(7, e);
        lemma2_to64();
        assert((64 - 7 * k) as nat == 7 + e);
        assert(v / 128 < pow2(e)) by (nonlinear_arith)
            requires v < 128 * pow2(e);
        lemma_leb128_varint(v / 128, k + 1, rest);
        assert(s.drop_first() == varint(v / 128) + rest);
        assert(s[0] == (v % 128 + 128) as u8);
    }
}

/// A 64-bit value reads back from its encoding, whatever follows it.
pub proof fn lemma_read_varint(v: u64, rest: Seq<u8>)
    ensures
        read_varint_spec(varint(v as nat) + rest) == Some((v, varint(v as nat).len())),
{
    lemma2_to64_rest();
    lemma_leb128_varint(v as nat, 0, rest);
}

} // verus!
