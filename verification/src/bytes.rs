//! Little-endian integers in byte sequences.

use vstd::arithmetic::power::{lemma_pow0, pow};
use vstd::prelude::*;
use crate::powers::lemma_pow_step;

verus! {

/// The value of `s` read as a little-endian integer.
pub open spec fn le_value(s: Seq<u8>) -> nat
    decreases s.len(),
{
    if s.len() == 0 {
        0
    } else {
        s[0] as nat + 256 * le_value(s.drop_first())
    }
}

/// The `n` low bytes of `v`, least significant first.
pub open spec fn le_bytes(v: nat, n: nat) -> Seq<u8>
    decreases n,
{
    if n == 0 {
        Seq::empty()
    } else {
        seq![(v % 256) as u8] + le_bytes(v / 256, (n - 1) as nat)
    }
}

/// `le_bytes` has the length it is asked for.
pub proof fn lemma_le_bytes_len(v: nat, n: nat)
    ensures
        le_bytes(v, n).len() == n,
    decreases n,
{
    if n > 0 {
        lemma_le_bytes_len(v / 256, (n - 1) as nat);
    }
}

/// Reading what was written gives the number back, if it fits.
pub proof fn lemma_le_round_trip(v: nat, n: nat)
    requires
        v < pow(256, n),
    ensures
        le_value(le_bytes(v, n)) == v,
    decreases n,
{
    if n == 0 {
        lemma_pow0(256);
    } else {
        let m = (n - 1) as nat;
        lemma_pow_step(256, m);
        lemma_le_round_trip(v / 256, m);
        let s = le_bytes(v, n);
        assert(s.drop_first() =~= le_bytes(v / 256, m));
    }
}

/// A sequence of `n` bytes reads as a number below `256^n`.
pub proof fn lemma_le_value_bound(s: Seq<u8>)
    ensures
        le_value(s) < pow(256, s.len()),
    decreases s.len(),
{
    if s.len() == 0 {
        lemma_pow0(256);
    } else {
        lemma_pow_step(256, (s.len() - 1) as nat);
        lemma_le_value_bound(s.drop_first());
    }
}

/// `256^n` for the sizes in use.
pub proof fn lemma_byte_powers()
    ensures
        pow(256, 1) == 0x100,
        pow(256, 2) == 0x1_0000,
        pow(256, 4) == 0x1_0000_0000,
        pow(256, 8) == 0x1_0000_0000_0000_0000,
        pow(256, 16) == u128::MAX + 1,
{
    lemma_pow0(256);
    lemma_pow_step(256, 0);
    lemma_pow_step(256, 1);
    lemma_pow_step(256, 2);
    lemma_pow_step(256, 3);
    lemma_pow_step(256, 4);
    lemma_pow_step(256, 5);
    lemma_pow_step(256, 6);
    lemma_pow_step(256, 7);
    lemma_pow_step(256, 8);
    lemma_pow_step(256, 9);
    lemma_pow_step(256, 10);
    lemma_pow_step(256, 11);
    lemma_pow_step(256, 12);
    lemma_pow_step(256, 13);
    lemma_pow_step(256, 14);
    lemma_pow_step(256, 15);
}

/// The `n`-byte little-endian integer at `at`.
fn read_le(data: &[u8], at: usize, n: usize) -> (r: u64)
    requires
        n <= 8,
        at + n <= data@.len(),
    ensures
        r == le_value(data@.subrange(at as int, at + n)),
{
    let mut acc: u64 = 0;
    let mut left: usize = n;
    let size: usize = data.len();
    while left > 0
        invariant
            left <= n <= 8,
            at + n <= size == data@.len(),
            acc == le_value(data@.subrange(at + left, at + n)),
        decreases left,
    {
        let ghost tail = data@.subrange(at + left, at + n);
        left = left - 1;
        proof {
            lemma_le_value_bound(tail);
            lemma_short_bound(tail);
            let whole = data@.subrange(at + left, at + n);
            assert(whole.drop_first() =~= tail);
        }
        acc = acc * 256 + data[at + left] as u64;
    }
    acc
}

/// At most seven bytes read as a number below `2^56`.
proof fn lemma_short_bound(s: Seq<u8>)
    requires
        s.len() <= 7,
    ensures
        le_value(s) < 0x100_0000_0000_0000,
{
    lemma_le_value_bound(s);
    lemma_pow0(256);
    lemma_pow_step(256, 0);
    lemma_pow_step(256, 1);
    lemma_pow_step(256, 2);
    lemma_pow_step(256, 3);
    lemma_pow_step(256, 4);
    lemma_pow_step(256, 5);
    lemma_pow_step(256, 6);
}

/// The little-endian `u64` at `at`.
pub fn read_u64(data: &[u8], at: usize) -> (r: u64)
    requires
        at + 8 <= data@.len(),
    ensures
        r == le_value(data@.subrange(at as int, at + 8)),
{
    read_le(data, at, 8)
}

/// The little-endian `u32` at `at`.
pub fn read_u32(data: &[u8], at: usize) -> (r: u32)
    requires
        at + 4 <= data@.len(),
    ensures
        r == le_value(data@.subrange(at as int, at + 4)),
{
    proof {
        lemma_le_value_bound(data@.subrange(at as int, at + 4));
        lemma_byte_powers();
    }
    read_le(data, at, 4) as u32
}

/// Appends the `n` low bytes of `v`, least significant first.
pub fn push_le(out: &mut Vec<u8>, v: u64, n: usize)
    requires
        n <= 8,
    ensures
        final(out)@ == old(out)@ + le_bytes(v as nat, n as nat),
{
    let mut rest: u64 = v;
    let mut left: usize = n;
    let ghost start = out@;
    assert(start + le_bytes(v as nat, n as nat) =~= out@ + le_bytes(rest as nat, left as nat));
    while left > 0
        invariant
            start + le_bytes(v as nat, n as nat) == out@ + le_bytes(rest as nat, left as nat),
        decreases left,
    {
        let ghost before = out@;
        let ghost tail = le_bytes((rest / 256) as nat, (left - 1) as nat);
        out.push((rest % 256) as u8);
        proof {
            assert(before + le_bytes(rest as nat, left as nat) =~= out@ + tail);
        }
        rest = rest / 256;
        left = left - 1;
    }
    assert(out@ + le_bytes(rest as nat, 0) =~= out@);
}

} // verus!
