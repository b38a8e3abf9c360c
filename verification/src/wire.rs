//! Fixed-width big-endian blocks.
//!
//! Public values cross the wire, and shared secrets become key material, as
//! blocks of exactly [`BLOCK_WIDTH`] bytes, most significant byte first.

use vstd::arithmetic::div_mod::*;
use vstd::arithmetic::power::*;
use vstd::prelude::*;

verus! {

/// Width in bytes of every block and frame exchanged by the protocol.
pub const BLOCK_WIDTH: usize = 16;

/// The number that a byte sequence denotes, most significant byte first.
pub open spec fn be_value(bytes: Seq<u8>) -> nat
    decreases bytes.len(),
{
    if bytes.len() == 0 {
        0
    } else {
        be_value(bytes.drop_last()) * 256 + bytes.last() as nat
    }
}

/// The `width` least significant base-256 digits of `value`, most
/// significant first.
pub open spec fn be_bytes(value: nat, width: nat) -> Seq<u8>
    decreases width,
{
    if width == 0 {
        Seq::empty()
    } else {
        be_bytes(value / 256, (width - 1) as nat).push((value % 256) as u8)
    }
}

/// An encoding has exactly the width asked for.
pub proof fn lemma_be_bytes_len(value: nat, width: nat)
    ensures
        be_bytes(value, width).len() == width,
    decreases width,
{
    if width > 0 {
        lemma_be_bytes_len(value / 256, (width - 1) as nat);
    }
}

/// A sequence of `n` bytes denotes a number below `256^n`.
pub proof fn lemma_be_value_bound(bytes: Seq<u8>)
    ensures
        be_value(bytes) < pow(256, bytes.len()),
    decreases bytes.len(),
{
    reveal(pow);
    if bytes.len() > 0 {
        lemma_be_value_bound(bytes.drop_last());
        let rest = be_value(bytes.drop_last()) as int;
        let cap = pow(256, (bytes.len() - 1) as nat);
        assert(rest * 256 + 255 < 256 * cap) by (nonlinear_arith)
            requires
                rest < cap,
        ;
    }
}

/// Decoding undoes encoding for every value that fits the width.
pub proof fn lemma_be_value_of_be_bytes(value: nat, width: nat)
    requires
        value < pow(256, width),
    ensures
        be_value(be_bytes(value, width)) == value,
    decreases width,
{
    reveal(pow);
    if width > 0 {
        let rest = value / 256;
        let cap = pow(256, (width - 1) as nat);
        assert(rest < cap) by (nonlinear_arith)
            requires
                value < 256 * cap,
                rest == value / 256,
        ;
        lemma_be_value_of_be_bytes(rest, (width - 1) as nat);
        let enc = be_bytes(value, width);
        assert(enc.drop_last() =~= be_bytes(rest, (width - 1) as nat));
        assert(enc.last() == (value % 256) as u8);
    }
}

/// Encoding undoes decoding at the width of the decoded sequence.
pub proof fn lemma_be_bytes_of_be_value(bytes: Seq<u8>)
    ensures
        be_bytes(be_value(bytes), bytes.len()) == bytes,
    decreases bytes.len(),
{
    if bytes.len() > 0 {
        let rest = be_value(bytes.drop_last());
        let value = be_value(bytes);
        lemma_be_bytes_of_be_value(bytes.drop_last());
        assert(value / 256 == rest && value % 256 == bytes.last() as nat) by {
            lemma_fundamental_div_mod_converse(value as int, 256, rest as int, bytes.last() as int);
        }
        assert(be_bytes(value, bytes.len()) =~= bytes);
    } else {
        assert(be_bytes(be_value(bytes), bytes.len()) =~= bytes);
    }
}

/// Sixteen bytes hold exactly the numbers below `2^128`.
pub proof fn lemma_block_capacity()
    ensures
        pow(256, BLOCK_WIDTH as nat) == 0x1_0000_0000_0000_0000_0000_0000_0000_0000,
{
    lemma_pow1(256);
    lemma_pow_adds(256, 1, 1);
    lemma_pow_adds(256, 2, 2);
    lemma_pow_adds(256, 4, 4);
    lemma_pow_adds(256, 8, 8);
    let w1 = pow(256, 1);
    let w2 = pow(256, 2);
    let w4 = pow(256, 4);
    let w8 = pow(256, 8);
    let w16 = pow(256, 16);
    assert(w2 == 0x1_0000) by (nonlinear_arith)
        requires
            w2 == w1 * w1,
            w1 == 256,
    ;
    assert(w4 == 0x1_0000_0000) by (nonlinear_arith)
        requires
            w4 == w2 * w2,
            w2 == 0x1_0000,
    ;
    assert(w8 == 0x1_0000_0000_0000_0000) by (nonlinear_arith)
        requires
            w8 == w4 * w4,
            w4 == 0x1_0000_0000,
    ;
    assert(w16 == 0x1_0000_0000_0000_0000_0000_0000_0000_0000) by (nonlinear_arith)
        requires
            w16 == w8 * w8,
            w8 == 0x1_0000_0000_0000_0000,
    ;
}

/// Writes `value` as a block of [`BLOCK_WIDTH`] bytes.
pub fn encode_block(value: u128) -> (out: Vec<u8>)
    ensures
        out@ == be_bytes(value as nat, BLOCK_WIDTH as nat),
        out@.len() == BLOCK_WIDTH,
{
    let mut out: Vec<u8> = Vec::new();
    let mut k: usize = 0;
    while k < BLOCK_WIDTH
        invariant
            k <= BLOCK_WIDTH,
            out@.len() == k,
            forall|j: int| 0 <= j < k ==> out@[j] == 0u8,
        decreases BLOCK_WIDTH - k,
    {
        out.push(0u8);
        k = k + 1;
    }
    let mut rest: u128 = value;
    let mut i: usize = BLOCK_WIDTH;
    while i > 0
        invariant
            i <= BLOCK_WIDTH,
            out@.len() == BLOCK_WIDTH,
            be_bytes(value as nat, BLOCK_WIDTH as nat) == be_bytes(rest as nat, i as nat)
                + out@.subrange(i as int, BLOCK_WIDTH as int),
        decreases i,
    {
        let ghost before = out@;
        i = i - 1;
        out.set(i, (rest % 256) as u8);
        proof {
            let tail = before.subrange(i + 1, BLOCK_WIDTH as int);
            assert(out@.subrange(i as int, BLOCK_WIDTH as int) =~= seq![(rest % 256) as u8] + tail);
            assert(be_bytes(rest as nat, (i + 1) as nat) + tail =~= be_bytes(
                (rest / 256) as nat,
                i as nat,
            ) + (seq![(rest % 256) as u8] + tail));
        }
        rest = rest / 256;
    }
    proof {
        assert(be_bytes(rest as nat, 0) + out@.subrange(0, BLOCK_WIDTH as int) =~= out@);
        lemma_be_bytes_len(value as nat, BLOCK_WIDTH as nat);
    }
    out
}

/// Reads a block of exactly [`BLOCK_WIDTH`] bytes; any other length is not
/// a block.
pub fn decode_block(bytes: &[u8]) -> (value: Option<u128>)
    ensures
        value is Some <==> bytes@.len() == BLOCK_WIDTH,
        value matches Some(v) ==> v == be_value(bytes@),
{
    if bytes.len() != BLOCK_WIDTH {
        return None;
    }
    let mut acc: u128 = 0;
    let mut i: usize = 0;
    while i < BLOCK_WIDTH
        invariant
            i <= BLOCK_WIDTH,
            bytes@.len() == BLOCK_WIDTH,
            acc == be_value(bytes@.take(i as int)),
        decreases BLOCK_WIDTH - i,
    {
        proof {
            let next = bytes@.take(i + 1);
            assert(next.drop_last() =~= bytes@.take(i as int));
            lemma_be_value_bound(next);
            lemma_pow_increases(256, (i + 1) as nat, BLOCK_WIDTH as nat);
            lemma_block_capacity();
        }
        acc = acc * 256 + bytes[i] as u128;
        i = i + 1;
    }
    proof {
        assert(bytes@.take(BLOCK_WIDTH as int) =~= bytes@);
    }
    Some(acc)
}

} // verus!
