//! Sequences of bits, and the bytes that hold them.
use vstd::prelude::*;

use crate::common::arithmetic::pow2;

verus! {

/// The lowest `n` binary digits of `v`, the highest of them first.
pub open spec fn to_bits(v: nat, n: nat) -> Seq<bool>
    decreases n,
{
    if n == 0 {
        Seq::empty()
    } else {
        to_bits(v / 2, (n - 1) as nat).push(v % 2 == 1)
    }
}

/// The bit at `i`; unset past the end.
pub open spec fn bit_or_zero(bits: Seq<bool>, i: int) -> nat {
    if 0 <= i < bits.len() && bits[i] {
        1
    } else {
        0
    }
}

/// The number whose `n` binary digits, the highest first, are at `o`.
pub open spec fn value(bits: Seq<bool>, o: int, n: int) -> nat
    decreases n,
{
    if n <= 0 {
        0
    } else {
        2 * value(bits, o, n - 1) + bit_or_zero(bits, o + n - 1)
    }
}

/// Bit `j` of the byte `b`, counted from the highest.
pub open spec fn byte_bit(b: u8, j: int) -> bool {
    (b >> ((7 - j) as u8)) & 1 == 1
}

/// The bits of `bytes`, those of each byte from the highest on.
pub open spec fn bits_of(bytes: Seq<u8>) -> Seq<bool> {
    Seq::new(8 * bytes.len(), |k: int| byte_bit(bytes[k / 8], k % 8))
}

/// How many bytes hold `n` bits.
pub open spec fn bytes_for(n: nat) -> nat {
    (n + 7) / 8
}

/// The bytes that hold `bits`, the last one filled up with unset bits.
pub open spec fn bytes_of(bits: Seq<bool>) -> Seq<u8> {
    Seq::new(bytes_for(bits.len()), |i: int| value(bits, 8 * i, 8) as u8)
}

/// `to_bits` gives as many bits as asked for.
pub proof fn lemma_to_bits_len(v: nat, n: nat)
    ensures
        to_bits(v, n).len() == n,
    decreases n,
{
    if n > 0 {
        lemma_to_bits_len(v / 2, (n - 1) as nat);
    }
}

/// The digits of a number, found at `o`, have that number as their value.
pub proof fn lemma_value_of_bits(bits: Seq<bool>, o: int, v: nat, n: nat)
    requires
        0 <= o,
        o + n <= bits.len(),
        bits.subrange(o, o + n) == to_bits(v, n),
        v < pow2(n),
    ensures
        value(bits, o, n as int) == v,
    decreases n,
{
    if n > 0 {
        let m = (n - 1) as nat;
        lemma_to_bits_len(v / 2, m);
        assert(bits.subrange(o, o + n).drop_last() =~= bits.subrange(o, o + m));
        assert(to_bits(v, n).drop_last() =~= to_bits(v / 2, m));
        lemma_value_of_bits(bits, o, v / 2, m);
        assert(bits[o + m] == bits.subrange(o, o + n)[m as int]);
    }
}

/// A value of `n` digits is below 2 to the power `n`.
pub proof fn lemma_value_bound(bits: Seq<bool>, o: int, n: nat)
    ensures
        value(bits, o, n as int) < pow2(n),
    decreases n,
{
    if n > 0 {
        lemma_value_bound(bits, o, (n - 1) as nat);
    }
}

/// A byte made of eight digits has those digits.
pub proof fn lemma_byte_of_value(bits: Seq<bool>, o: int, j: int)
    requires
        0 <= j < 8,
    ensures
        value(bits, o, 8) < 256,
        byte_bit(value(bits, o, 8) as u8, j) == (bit_or_zero(bits, o + j) == 1),
{
    reveal_with_fuel(value, 9);
    let b0: u8 = bit_or_zero(bits, o) as u8;
    let b1: u8 = bit_or_zero(bits, o + 1) as u8;
    let b2: u8 = bit_or_zero(bits, o + 2) as u8;
    let b3: u8 = bit_or_zero(bits, o + 3) as u8;
    let b4: u8 = bit_or_zero(bits, o + 4) as u8;
    let b5: u8 = bit_or_zero(bits, o + 5) as u8;
    let b6: u8 = bit_or_zero(bits, o + 6) as u8;
    let b7: u8 = bit_or_zero(bits, o + 7) as u8;
    let v: u8 = value(bits, o, 8) as u8;
    let s: u8 = (7 - j) as u8;
    assert(v == 128 * b0 + 64 * b1 + 32 * b2 + 16 * b3 + 8 * b4 + 4 * b5 + 2 * b6 + b7);
    assert(((v >> s) & 1 == 1) == ((s == 7 && b0 == 1) || (s == 6 && b1 == 1) || (s == 5 && b2
        == 1) || (s == 4 && b3 == 1) || (s == 3 && b4 == 1) || (s == 2 && b5 == 1) || (s == 1 && b6
        == 1) || (s == 0 && b7 == 1))) by (bit_vector)
        requires
            b0 <= 1,
            b1 <= 1,
            b2 <= 1,
            b3 <= 1,
            b4 <= 1,
            b5 <= 1,
            b6 <= 1,
            b7 <= 1,
            s <= 7,
            v == 128 * b0 + 64 * b1 + 32 * b2 + 16 * b3 + 8 * b4 + 4 * b5 + 2 * b6 + b7,
    ;
}

/// A byte is the value of its eight bits.
pub proof fn lemma_value_of_byte(b: u8, bits: Seq<bool>, o: int)
    requires
        forall|j: int| 0 <= j < 8 ==> (bit_or_zero(bits, o + j) == 1) == #[trigger] byte_bit(b, j),
    ensures
        value(bits, o, 8) as u8 == b,
{
    reveal_with_fuel(value, 9);
    let v: u8 = value(bits, o, 8) as u8;
    assert forall|j: int| 0 <= j < 8 implies #[trigger] byte_bit(v, j) == byte_bit(b, j) by {
        lemma_byte_of_value(bits, o, j);
    }
    assert(byte_bit(v, 0) == byte_bit(b, 0));
    assert(byte_bit(v, 1) == byte_bit(b, 1));
    assert(byte_bit(v, 2) == byte_bit(b, 2));
    assert(byte_bit(v, 3) == byte_bit(b, 3));
    assert(byte_bit(v, 4) == byte_bit(b, 4));
    assert(byte_bit(v, 5) == byte_bit(b, 5));
    assert(byte_bit(v, 6) == byte_bit(b, 6));
    assert(byte_bit(v, 7) == byte_bit(b, 7));
    assert(v == b) by (bit_vector)
        requires
            ((v >> 7u8) & 1 == 1) == ((b >> 7u8) & 1 == 1),
            ((v >> 6u8) & 1 == 1) == ((b >> 6u8) & 1 == 1),
            ((v >> 5u8) & 1 == 1) == ((b >> 5u8) & 1 == 1),
            ((v >> 4u8) & 1 == 1) == ((b >> 4u8) & 1 == 1),
            ((v >> 3u8) & 1 == 1) == ((b >> 3u8) & 1 == 1),
            ((v >> 2u8) & 1 == 1) == ((b >> 2u8) & 1 == 1),
            ((v >> 1u8) & 1 == 1) == ((b >> 1u8) & 1 == 1),
            ((v >> 0u8) & 1 == 1) == ((b >> 0u8) & 1 == 1),
    ;
}

/// The bytes that hold `bits` begin with `bits`.
pub proof fn lemma_bits_of_bytes_of(bits: Seq<bool>, k: int)
    requires
        0 <= k < bits.len(),
    ensures
        bits_of(bytes_of(bits))[k] == bits[k],
{
    lemma_byte_of_value(bits, 8 * (k / 8), k % 8);
}

} // verus!
