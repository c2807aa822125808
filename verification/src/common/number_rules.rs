//! What numbers look like in their stored form, digit by digit.
use vstd::prelude::*;

use crate::common::arithmetic::{
    bit_length, lemma_bit_length, pow2, unzigzag, used_bits, wrapping_difference,
    wrapping_negation, wrapping_sum, zigzag,
};
use crate::common::bits::{bytes_of, lemma_byte_of_value, lemma_to_bits_len, to_bits};
use crate::common::vle::vle_bits;

verus! {

/// The unsigned numbers stand in turn for the numbers from 0 up and those from -1 down: 0 for 0, then
/// 1 for -1, 2 for 1, 3 for -2 and so on.
pub proof fn law_zigzag(n: int)
    requires
        0 <= n < 32768,
    ensures
        zigzag(n as i16) == 2 * n,
        zigzag((-1 - n) as i16) == 2 * n + 1,
        unzigzag((2 * n) as u16) == n,
        unzigzag((2 * n + 1) as u16) == -1 - n,
{
}

/// Sums, differences and negations that leave the range come back into it by a multiple of 65536.
pub proof fn law_wrapping(a: i16, b: i16)
    ensures
        (a + b - wrapping_sum(a, b)) % 65536 == 0,
        (a - b - wrapping_difference(a, b)) % 65536 == 0,
        (-a - wrapping_negation(a)) % 65536 == 0,
{
}

/// A power of two is twice the one before it.
pub proof fn law_pow2(n: nat)
    ensures
        pow2(0) == 1,
        pow2(n + 1) == 2 * pow2(n),
        pow2(n) > 0,
    decreases n,
{
    if n > 0 {
        law_pow2((n - 1) as nat);
    }
}

/// A number that is not zero reaches the power of two below its digits.
proof fn lemma_bit_length_reached(x: nat)
    requires
        x > 0,
    ensures
        bit_length(x) > 0,
        pow2((bit_length(x) - 1) as nat) <= x,
    decreases x,
{
    if x > 1 {
        lemma_bit_length_reached(x / 2);
    } else {
        assert(bit_length(x / 2) == 0);
    }
}

/// A choice among `n` takes as few digits as can tell `n` numbers apart: none for a single one, and
/// otherwise one digit less would not do.
pub proof fn law_used_bits(n: nat)
    requires
        n > 0,
    ensures
        n <= pow2(used_bits(n)),
        n == 1 ==> used_bits(n) == 0,
        n > 1 ==> used_bits(n) > 0 && pow2((used_bits(n) - 1) as nat) < n,
{
    lemma_bit_length((n - 1) as nat);
    if n > 1 {
        lemma_bit_length_reached((n - 1) as nat);
    }
}

/// The binary digits of a number: the last one tells whether it is odd, the ones before it are those
/// of its half.
pub proof fn law_to_bits(v: nat, n: nat)
    ensures
        to_bits(v, n).len() == n,
        n > 0 ==> to_bits(v, n).last() == (v % 2 == 1),
        n > 0 ==> to_bits(v, n).drop_last() == to_bits(v / 2, (n - 1) as nat),
{
    lemma_to_bits_len(v, n);
    if n > 0 {
        assert(to_bits(v, n).drop_last() =~= to_bits(v / 2, (n - 1) as nat));
    }
}

/// Bits are held in bytes from the highest bit of each down. There are no more bytes than needed, and
/// the bits of the last one that hold nothing are not set.
pub proof fn law_bytes_of(bits: Seq<bool>, k: int)
    requires
        0 <= k < 8 * bytes_of(bits).len(),
    ensures
        8 * bytes_of(bits).len() < bits.len() + 8,
        bits.len() <= 8 * bytes_of(bits).len(),
        ({
            let b = bytes_of(bits)[k / 8];
            (b >> ((7 - k % 8) as u8)) % 2 == 1 <==> k < bits.len() && bits[k]
        }),
{
    lemma_byte_of_value(bits, 8 * (k / 8), k % 8);
    let b: u8 = bytes_of(bits)[k / 8];
    let s: u8 = (7 - k % 8) as u8;
    assert(((b >> s) & 1 == 1) == ((b >> s) % 2 == 1)) by (bit_vector);
}

/// A number of variable length is its digits to the base sixteen from the lowest on, each behind a
/// bit that is set if another one follows. There is no digit zero in front.
pub proof fn law_vle(v: nat)
    ensures
        v < 16 ==> vle_bits(v) == seq![false] + to_bits(v, 4),
        v >= 16 ==> vle_bits(v) == seq![true] + to_bits(v % 16, 4) + vle_bits(v / 16),
{
    let d = v % 16;
    reveal_with_fuel(to_bits, 6);
    if v < 16 {
        assert(v / 2 / 2 / 2 / 2 == 0);
        assert(to_bits(v, 5) =~= seq![false] + to_bits(v, 4));
    } else {
        let w = 16 + d;
        assert((16 + d) / 2 / 2 / 2 / 2 == 1);
        assert((16 + d) % 2 == d % 2);
        assert((16 + d) / 2 % 2 == d / 2 % 2);
        assert((16 + d) / 2 / 2 % 2 == d / 2 / 2 % 2);
        assert((16 + d) / 2 / 2 / 2 % 2 == d / 2 / 2 / 2 % 2);
        assert(to_bits(w, 5) =~= seq![true] + to_bits(d, 4));
    }
}

} // verus!
