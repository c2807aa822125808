//! Numbers as the format stores them.
use vstd::prelude::*;

verus! {

/// The unsigned number that stands for `a`: 0, -1, 1, -2, ... become 0, 1, 2, 3, ...
pub open spec fn zigzag(a: i16) -> u16 {
    if a >= 0 {
        (2 * a) as u16
    } else {
        (-2 * a - 1) as u16
    }
}

/// The signed number for which `r` stands.
pub open spec fn unzigzag(r: u16) -> i16 {
    if r % 2 == 0 {
        (r / 2) as i16
    } else {
        (-1 - r / 2) as i16
    }
}

/// `unzigzag` undoes `zigzag`.
pub proof fn law_unzigzag_zigzag(a: i16)
    ensures
        unzigzag(zigzag(a)) == a,
{
}

/// `zigzag` undoes `unzigzag`.
pub proof fn law_zigzag_unzigzag(r: u16)
    ensures
        zigzag(unzigzag(r)) == r,
{
}

/// The unsigned number that stands for `a`: 0, -1, 1, -2, ... become 0, 1, 2, 3, ...
pub fn signed_to_unsigned(a: i16) -> (r: u16)
    ensures
        r == zigzag(a),
{
    if a >= 0 {
        (a as u16) * 2
    } else {
        (-(a + 1)) as u16 * 2 + 1
    }
}

/// The signed number for which `r` stands.
pub fn unsigned_to_signed(r: u16) -> (a: i16)
    ensures
        a == unzigzag(r),
{
    if r % 2 == 0 {
        (r / 2) as i16
    } else {
        -1 - (r / 2) as i16
    }
}

/// `a - b`, wrapped into the range of 16 bits.
pub open spec fn wrapping_difference(a: i16, b: i16) -> i16 {
    let d = a - b;
    if d > 32767 {
        (d - 65536) as i16
    } else if d < -32768 {
        (d + 65536) as i16
    } else {
        d as i16
    }
}

/// `a + b`, wrapped into the range of 16 bits.
pub open spec fn wrapping_sum(a: i16, b: i16) -> i16 {
    let d = a + b;
    if d > 32767 {
        (d - 65536) as i16
    } else if d < -32768 {
        (d + 65536) as i16
    } else {
        d as i16
    }
}

/// `-a`, wrapped into the range of 16 bits.
pub open spec fn wrapping_negation(a: i16) -> i16 {
    wrapping_difference(0, a)
}

/// Adding a difference gives back the number it was taken from.
pub proof fn lemma_sum_of_difference(a: i16, b: i16)
    ensures
        wrapping_sum(b, wrapping_difference(a, b)) == a,
{
}

/// How many binary digits `x` has; none for 0.
pub open spec fn bit_length(x: nat) -> nat
    decreases x,
{
    if x == 0 {
        0
    } else {
        1 + bit_length(x / 2)
    }
}

/// How many binary digits a choice among `n` takes.
pub open spec fn used_bits(n: nat) -> nat {
    if n == 0 {
        0
    } else {
        bit_length((n - 1) as nat)
    }
}

/// 2 to the power `n`.
pub open spec fn pow2(n: nat) -> nat
    decreases n,
{
    if n == 0 {
        1
    } else {
        2 * pow2((n - 1) as nat)
    }
}

/// A number is below the power of two that its digits reach.
pub proof fn lemma_bit_length(x: nat)
    ensures
        x < pow2(bit_length(x)),
    decreases x,
{
    if x > 0 {
        lemma_bit_length(x / 2);
    }
}

/// Larger numbers have at least as many digits.
pub proof fn lemma_bit_length_monotonic(x: nat, y: nat)
    requires
        x <= y,
    ensures
        bit_length(x) <= bit_length(y),
    decreases y,
{
    if x > 0 {
        lemma_bit_length_monotonic(x / 2, y / 2);
    }
}

/// Every choice among `n` fits into the digits that the choice takes, and a choice among at most
/// 256 takes at most eight.
pub proof fn lemma_used_bits(k: nat, n: nat)
    requires
        k < n,
    ensures
        k < pow2(used_bits(n)),
        n <= 256 ==> used_bits(n) <= 8,
{
    lemma_bit_length(k);
    lemma_bit_length((n - 1) as nat);
    if n <= 256 {
        lemma_bit_length_monotonic((n - 1) as nat, 255);
        reveal_with_fuel(bit_length, 9);
        assert(bit_length(255) == 8);
    }
}

/// How many binary digits a choice among `n` takes.
pub fn used_bits_safe(n: u16) -> (r: u8)
    ensures
        r == used_bits(n as nat),
        r <= 16,
{
    if n == 0 {
        return 0;
    }
    let mut x: u16 = n - 1;
    let mut r: u8 = 0;
    proof {
        lemma_bit_length_monotonic(x as nat, 0xFFFF);
        reveal_with_fuel(bit_length, 17);
        assert(bit_length(0xFFFF) == 16);
    }
    while x > 0
        invariant
            r + bit_length(x as nat) == used_bits(n as nat),
            used_bits(n as nat) <= 16,
        decreases x,
    {
        x = x / 2;
        r = r + 1;
    }
    r
}

/// The two bytes of `v`, the high one first.
pub open spec fn be16(v: u16) -> Seq<u8> {
    seq![(v / 256) as u8, (v % 256) as u8]
}

/// The number whose two bytes, the high one first, are at `i`.
pub open spec fn from_be16(data: Seq<u8>, i: int) -> u16 {
    (data[i] * 256 + data[i + 1]) as u16
}

/// The two bytes of a number give the number.
pub proof fn lemma_be16(v: u16, data: Seq<u8>, i: int)
    requires
        data[i] == be16(v)[0],
        data[i + 1] == be16(v)[1],
    ensures
        from_be16(data, i) == v,
{
}

} // verus!
