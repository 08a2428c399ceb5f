//! The wire format, as mathematics.
//!
//! A fixed-width integer is written most significant byte first. A
//! variable-width integer occupies 1, 2, 4 or 8 bytes; the two most
//! significant bits of its first byte are a tag that selects the width, and
//! the remaining 6, 14, 30 or 62 bits hold the value, again big-endian.

use vstd::arithmetic::div_mod::{
    lemma_div_denominator, lemma_fundamental_div_mod, lemma_mod_multiples_vanish,
};
use vstd::prelude::*;

verus! {

/// The number of values that `n` bytes can tell apart: 256 to the power `n`.
pub open spec fn capacity(n: nat) -> nat
    decreases n,
{
    if n == 0 {
        1
    } else {
        256 * capacity((n - 1) as nat)
    }
}

/// The number that `bytes` spells when read most significant byte first.
pub open spec fn be_value(bytes: Seq<u8>) -> nat
    decreases bytes.len(),
{
    if bytes.len() == 0 {
        0
    } else {
        256 * be_value(bytes.drop_last()) + bytes.last() as nat
    }
}

/// The `n` low-order bytes of `v`, most significant first. Whatever of `v`
/// does not fit in `n` bytes is dropped.
pub open spec fn be_bytes(v: nat, n: nat) -> Seq<u8>
    decreases n,
{
    if n == 0 {
        Seq::empty()
    } else {
        be_bytes(v / 256, (n - 1) as nat).push((v % 256) as u8)
    }
}

/// One past the largest value that a variable-width integer can carry.
pub const VARINT_LIMIT: u64 = 0x4000_0000_0000_0000;

/// The encoded width, in bytes, of the variable-width integer `v`: the
/// smallest of 1, 2, 4 and 8 whose payload bits can hold it.
pub open spec fn varint_width(v: nat) -> nat {
    if v < 0x40 {
        1
    } else if v < 0x4000 {
        2
    } else if v < 0x4000_0000 {
        4
    } else {
        8
    }
}

/// The two-bit tag that announces a width of 1, 2, 4 or 8 bytes.
pub open spec fn width_tag(width: nat) -> nat {
    if width == 1 {
        0
    } else if width == 2 {
        1
    } else if width == 4 {
        2
    } else {
        3
    }
}

/// The width that the first byte of a variable-width integer announces in
/// its two most significant bits.
pub open spec fn tag_width(first: u8) -> nat {
    if first < 0x40 {
        1
    } else if first < 0x80 {
        2
    } else if first < 0xc0 {
        4
    } else {
        8
    }
}

/// The number of values that fit beside the tag in `width` bytes: a quarter
/// of what the bytes could hold without it.
pub open spec fn payload_capacity(width: nat) -> nat {
    capacity(width) / 4
}

/// The encoding of the variable-width integer `v`: the big-endian number,
/// [`varint_width`] bytes wide, whose two most significant bits are the tag
/// of that width and whose remaining bits are `v`.
pub open spec fn varint_bytes(v: nat) -> Seq<u8> {
    let width = varint_width(v);
    be_bytes(width_tag(width) * payload_capacity(width) + v, width)
}

/// The value that a complete variable-width encoding carries: the number it
/// spells, less the tag bits.
pub open spec fn varint_value(bytes: Seq<u8>) -> nat {
    be_value(bytes) % payload_capacity(bytes.len())
}

/// The capacities of the widths the format uses, written out.
pub proof fn lemma_capacity_values()
    ensures
        capacity(0) == 1,
        capacity(1) == 0x100,
        capacity(2) == 0x1_0000,
        capacity(3) == 0x100_0000,
        capacity(4) == 0x1_0000_0000,
        capacity(5) == 0x100_0000_0000,
        capacity(6) == 0x1_0000_0000_0000,
        capacity(7) == 0x100_0000_0000_0000,
        capacity(8) == 0x1_0000_0000_0000_0000,
{
    reveal_with_fuel(capacity, 9);
}

/// Every capacity is positive, and each byte multiplies it by 256.
pub proof fn lemma_capacity_step(n: nat)
    ensures
        capacity(n) > 0,
        capacity(n + 1) == 256 * capacity(n),
    decreases n,
{
    if n > 0 {
        lemma_capacity_step((n - 1) as nat);
    }
}

/// `be_bytes` yields exactly as many bytes as asked for.
pub proof fn lemma_be_bytes_len(v: nat, n: nat)
    ensures
        be_bytes(v, n).len() == n,
    decreases n,
{
    if n > 0 {
        lemma_be_bytes_len(v / 256, (n - 1) as nat);
    }
}

/// Appending a byte shifts the number spelled so far up by one byte and
/// adds the new byte.
pub proof fn lemma_be_value_push(bytes: Seq<u8>, b: u8)
    ensures
        be_value(bytes.push(b)) == 256 * be_value(bytes) + b,
{
    assert(bytes.push(b).drop_last() =~= bytes);
}

/// The number that `bytes` spells is below the capacity of their count.
pub proof fn lemma_be_value_bound(bytes: Seq<u8>)
    ensures
        be_value(bytes) < capacity(bytes.len()),
    decreases bytes.len(),
{
    if bytes.len() > 0 {
        lemma_be_value_bound(bytes.drop_last());
    }
}

/// Shifting a 64-bit value right by `k` whole bytes divides it by the
/// capacity of `k` bytes.
pub proof fn lemma_shift_divides(v: u64, k: nat)
    requires
        k < 8,
    ensures
        (v >> ((8 * k) as u64)) == v as nat / capacity(k),
    decreases k,
{
    if k == 0 {
        assert(v >> 0u64 == v) by (bit_vector);
        assert(v as nat / 1 == v as nat);
    } else {
        let j = (k - 1) as nat;
        let s = (8 * j) as u64;
        lemma_shift_divides(v, j);
        lemma_capacity_step(j);
        assert(v >> ((s + 8) as u64) == (v >> s) / 256) by (bit_vector)
            requires
                s <= 48,
        ;
        lemma_div_denominator(v as int, capacity(j) as int, 256);
    }
}

/// Writing bytes from the most significant end: with `x` for what is left of
/// `v` above its `k` lowest bytes, the `i + 1` low-order bytes of `x` are the
/// `i` low-order bytes of `x / 256` followed by the lowest byte of `x`.
pub proof fn lemma_be_bytes_extend(v: nat, k: nat, i: nat)
    ensures
        be_bytes(v / capacity(k), i + 1) == be_bytes(v / capacity(k + 1), i).push(
            ((v / capacity(k)) % 256) as u8,
        ),
{
    lemma_capacity_step(k);
    lemma_div_denominator(v as int, capacity(k) as int, 256);
}

/// Reading one more byte into a 64-bit accumulator: if `acc` holds the low
/// 64 bits of `x`, then shifting it up a byte and putting `b` in the gap
/// gives the low 64 bits of `256 * x + b`.
pub proof fn lemma_accumulate(acc: u64, x: nat, b: u8)
    requires
        acc == x % 0x1_0000_0000_0000_0000,
    ensures
        (acc << 8 | b as u64) == (256 * x + b) % 0x1_0000_0000_0000_0000,
{
    let m = 0x1_0000_0000_0000_0000int;
    let q = x as int / m;
    assert((acc << 8 | b as u64) == (256 * acc + b) % 0x1_0000_0000_0000_0000) by (bit_vector);
    lemma_fundamental_div_mod(x as int, m);
    assert(256 * x + b == m * (256 * q) + (256 * acc + b)) by (nonlinear_arith)
        requires
            x == m * q + acc,
    ;
    lemma_mod_multiples_vanish(256 * q, 256 * acc + b, m);
}

} // verus!
