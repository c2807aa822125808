//! Numbers of variable length: blocks of four digits, each behind a bit that says whether another
//! block follows.
use vstd::prelude::*;

use crate::common::arithmetic::pow2;
use crate::common::bits::{lemma_to_bits_len, lemma_value_of_bits, to_bits, value};

verus! {

/// The blocks for `v`, the lowest digits first.
pub open spec fn vle_bits(v: nat) -> Seq<bool>
    decreases v,
{
    if v < 16 {
        to_bits(v, 5)
    } else {
        to_bits(16 + v % 16, 5) + vle_bits(v / 16)
    }
}

/// The number in at most `blocks` blocks at `o`, and the place behind it. There is none if the bits
/// end before the last block, or if more blocks follow.
pub open spec fn read_vle(bits: Seq<bool>, o: int, blocks: nat) -> Option<(nat, int)>
    decreases blocks,
{
    if blocks == 0 || o + 5 > bits.len() {
        None
    } else {
        let block = value(bits, o, 5);
        if block < 16 {
            Some((block, o + 5))
        } else {
            match read_vle(bits, o + 5, (blocks - 1) as nat) {
                Some((high, end)) => Some((((block - 16) + 16 * high) as nat, end)),
                None => None,
            }
        }
    }
}

/// 16 to the power `n`.
pub open spec fn pow16(n: nat) -> nat
    decreases n,
{
    if n == 0 {
        1
    } else {
        16 * pow16((n - 1) as nat)
    }
}

/// A number takes five bits for each of its blocks.
pub proof fn lemma_vle_len(v: nat, blocks: nat)
    requires
        v < pow16(blocks),
        blocks > 0,
    ensures
        5 <= vle_bits(v).len() <= 5 * blocks,
    decreases blocks,
{
    lemma_to_bits_len(v, 5);
    lemma_to_bits_len(16 + v % 16, 5);
    if v >= 16 {
        if blocks == 1 {
            reveal_with_fuel(pow16, 2);
        }
        lemma_vle_len(v / 16, (blocks - 1) as nat);
    }
}

/// A number that is read ends within the bits.
pub proof fn lemma_read_vle_end(bits: Seq<bool>, o: int, blocks: nat)
    ensures
        read_vle(bits, o, blocks) matches Some((v, end)) ==> o + 5 <= end <= bits.len(),
    decreases blocks,
{
    if blocks > 0 {
        lemma_read_vle_end(bits, o + 5, (blocks - 1) as nat);
    }
}

/// A number of at most `blocks` blocks is read back from the bits that were written for it.
pub proof fn law_vle_round_trip(bits: Seq<bool>, o: int, v: nat, blocks: nat)
    requires
        0 <= o,
        v < pow16(blocks),
        blocks > 0,
        o + vle_bits(v).len() <= bits.len(),
        bits.subrange(o, o + vle_bits(v).len()) == vle_bits(v),
    ensures
        read_vle(bits, o, blocks) == Some((v, o + vle_bits(v).len())),
    decreases blocks,
{
    reveal_with_fuel(pow2, 6);
    let all = vle_bits(v);
    if v < 16 {
        lemma_to_bits_len(v, 5);
        lemma_value_of_bits(bits, o, v, 5);
    } else {
        let first = to_bits(16 + v % 16, 5);
        let rest = vle_bits(v / 16);
        lemma_to_bits_len(16 + v % 16, 5);
        assert(bits.subrange(o, o + 5) =~= first) by {
            assert(all.subrange(0, 5) =~= first);
            assert(bits.subrange(o, o + all.len()).subrange(0, 5) =~= bits.subrange(o, o + 5));
        }
        lemma_value_of_bits(bits, o, 16 + v % 16, 5);
        assert(bits.subrange(o + 5, o + 5 + rest.len()) =~= rest) by {
            assert(all.subrange(5, all.len() as int) =~= rest);
            assert(bits.subrange(o, o + all.len()).subrange(5, all.len() as int) =~= bits.subrange(
                o + 5,
                o + all.len(),
            ));
        }
        if blocks == 1 {
            reveal_with_fuel(pow16, 2);
        }
        law_vle_round_trip(bits, o + 5, v / 16, (blocks - 1) as nat);
    }
}

} // verus!
