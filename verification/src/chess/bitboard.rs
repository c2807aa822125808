//! Sets of squares held in one word.
use vstd::prelude::*;

use crate::chess::coords::Square;

verus! {

/// A set of squares: bit `i` stands for the square `i`.
#[derive(Debug, Clone, Copy, PartialEq, Eq, Structural)]
pub struct Bitboard {
    pub bits: u64,
}

/// Whether bit `i` of `bits` is set.
pub open spec fn bit(bits: u64, i: int) -> bool {
    (bits >> (i as u64)) & 1 == 1
}

/// The set of squares whose bit is set in `bits`.
pub open spec fn squares(bits: u64) -> Set<int> {
    Set::new(|i: int| 0 <= i < 64 && bit(bits, i))
}

/// How many squares of `s` have an index below `n`.
pub open spec fn count_below(s: Set<int>, n: int) -> nat
    decreases n,
{
    if n <= 0 {
        0
    } else {
        count_below(s, n - 1) + if s.contains(n - 1) {
            1nat
        } else {
            0
        }
    }
}

/// How many squares `s` holds.
pub open spec fn count(s: Set<int>) -> nat {
    count_below(s, 64)
}

/// Whether `i` is the square of `s` that has `k` squares of `s` below it.
pub open spec fn is_nth(s: Set<int>, k: int, i: int) -> bool {
    0 <= i < 64 && s.contains(i) && count_below(s, i) == k
}

/// The square of `s` that has `k` squares of `s` below it.
pub open spec fn nth(s: Set<int>, k: int) -> int {
    choose|i: int| is_nth(s, k, i)
}

impl View for Bitboard {
    type V = Set<int>;

    open spec fn view(&self) -> Set<int> {
        squares(self.bits)
    }
}

/// Counts grow with the bound, by at most one per square.
pub proof fn lemma_count_below_bounds(s: Set<int>, a: int, b: int)
    requires
        0 <= a <= b,
    ensures
        count_below(s, a) <= count_below(s, b) <= count_below(s, a) + (b - a),
    decreases b,
{
    if a < b {
        lemma_count_below_bounds(s, a, b - 1);
    }
}

/// A square of the set is counted above it.
pub proof fn lemma_count_below_strict(s: Set<int>, a: int, b: int)
    requires
        0 <= a < b,
        s.contains(a),
    ensures
        count_below(s, a) < count_below(s, b),
{
    lemma_count_below_bounds(s, a + 1, b);
}

/// Two squares of a set with the same count below them are the same square.
pub proof fn lemma_nth_unique(s: Set<int>, k: int, i: int, j: int)
    requires
        is_nth(s, k, i),
        is_nth(s, k, j),
    ensures
        i == j,
{
    if i < j {
        lemma_count_below_strict(s, i, j);
    } else if j < i {
        lemma_count_below_strict(s, j, i);
    }
}

/// `nth` finds the square that a square's own count names.
pub proof fn lemma_nth_of_count(s: Set<int>, i: int)
    requires
        0 <= i < 64,
        s.contains(i),
    ensures
        count_below(s, i) < count(s),
        nth(s, count_below(s, i) as int) == i,
{
    lemma_count_below_strict(s, i, 64);
    assert(is_nth(s, count_below(s, i) as int, i));
    lemma_nth_unique(s, count_below(s, i) as int, i, nth(s, count_below(s, i) as int));
}

/// Every count that the set reaches is the count below one of its squares.
proof fn lemma_nth_exists(s: Set<int>, k: int, n: int)
    requires
        0 <= k < count_below(s, n),
        n <= 64,
    ensures
        exists|i: int| is_nth(s, k, i) && i < n,
    decreases n,
{
    if n > 0 {
        if k < count_below(s, n - 1) {
            lemma_nth_exists(s, k, n - 1);
        } else {
            assert(is_nth(s, k, n - 1));
        }
    }
}

/// `nth` is a square of the set for every number below the count.
pub proof fn lemma_nth(s: Set<int>, k: int)
    requires
        0 <= k < count(s),
    ensures
        is_nth(s, k, nth(s, k)),
{
    lemma_nth_exists(s, k, 64);
}

/// Setting one bit adds one square.
proof fn lemma_set_bit(bits: u64, k: u64)
    requires
        k < 64,
    ensures
        forall|i: int| 0 <= i < 64 ==> #[trigger] bit(bits | (1u64 << k), i) == (bit(bits, i) || i
            == k),
{
    assert forall|i: int| 0 <= i < 64 implies #[trigger] bit(bits | (1u64 << k), i) == (bit(bits, i)
        || i == k) by {
        let j: u64 = i as u64;
        assert((((bits | (1u64 << k)) >> j) & 1 == 1) == (((bits >> j) & 1 == 1) || j == k))
            by (bit_vector)
            requires
                j < 64,
                k < 64,
        ;
    }
}

/// Words whose lowest bits agree are equal once the other bits are shifted out.
proof fn lemma_low_bits_agree(a: u64, b: u64, n: u64)
    requires
        1 <= n <= 64,
        forall|i: int| 0 <= i < n ==> bit(a, i) == bit(b, i),
    ensures
        a << ((64 - n) as u64) == b << ((64 - n) as u64),
    decreases n,
{
    let m: u64 = (n - 1) as u64;
    let up: u64 = (64 - n) as u64;
    assert(bit(a, m as int) == bit(b, m as int));
    if n == 1 {
        assert(a << 63u64 == b << 63u64) by (bit_vector)
            requires
                ((a >> 0u64) & 1 == 1) == ((b >> 0u64) & 1 == 1),
        ;
    } else {
        lemma_low_bits_agree(a, b, m);
        let last: u64 = (64 - m) as u64;
        assert(a << up == b << up) by (bit_vector)
            requires
                1 <= m < 64,
                last == 64 - m,
                up == 63 - m,
                a << last == b << last,
                ((a >> m) & 1 == 1) == ((b >> m) & 1 == 1),
        ;
    }
}

/// A word is determined by its set of squares.
pub proof fn lemma_squares_injective(a: u64, b: u64)
    requires
        squares(a) == squares(b),
    ensures
        a == b,
{
    assert forall|i: int| 0 <= i < 64 implies bit(a, i) == bit(b, i) by {
        assert(squares(a).contains(i) <==> bit(a, i));
        assert(squares(b).contains(i) <==> bit(b, i));
    }
    lemma_low_bits_agree(a, b, 64);
    assert(a << 0u64 == a && b << 0u64 == b) by (bit_vector);
}

/// The empty word holds no square.
pub proof fn lemma_squares_empty()
    ensures
        squares(0) == Set::<int>::empty(),
{
    assert forall|i: int| 0 <= i < 64 implies !bit(0, i) by {
        let j: u64 = i as u64;
        assert((0u64 >> j) & 1 == 0) by (bit_vector);
    }
    assert(squares(0) =~= Set::<int>::empty());
}

/// Every set of squares is the set of some word.
pub proof fn lemma_word_exists(s: Set<int>, n: int) -> (w: u64)
    requires
        0 <= n <= 64,
    ensures
        forall|i: int| #[trigger] squares(w).contains(i) <==> 0 <= i < n && s.contains(i),
    decreases n,
{
    if n == 0 {
        lemma_squares_empty();
        0
    } else {
        let w = lemma_word_exists(s, n - 1);
        if s.contains(n - 1) {
            lemma_set_bit(w, (n - 1) as u64);
            let r = w | (1u64 << ((n - 1) as u64));
            assert forall|i: int| #[trigger] squares(r).contains(i) <==> 0 <= i < n && s.contains(
                i,
            ) by {
                if 0 <= i < 64 {
                    assert(bit(r, i) == (bit(w, i) || i == n - 1));
                    assert(squares(w).contains(i) == bit(w, i));
                }
            }
            r
        } else {
            w
        }
    }
}

impl Bitboard {
    /// The set with the given bits.
    pub fn new(bits: u64) -> (r: Bitboard)
        ensures
            r.bits == bits,
    {
        Bitboard { bits }
    }

    /// The empty set.
    pub fn empty() -> (r: Bitboard)
        ensures
            r@ == Set::<int>::empty(),
    {
        proof {
            lemma_squares_empty();
        }
        Bitboard { bits: 0 }
    }

    /// The bits of the set.
    pub fn bits(self) -> (r: u64)
        ensures
            r == self.bits,
    {
        self.bits
    }

    /// Whether the set holds the square `i`.
    pub fn has(self, i: u8) -> (r: bool)
        requires
            i < 64,
        ensures
            r == self@.contains(i as int),
    {
        (self.bits >> (i as u64)) & 1 == 1
    }

    /// The set with the square `i` added.
    pub fn with(self, i: u8) -> (r: Bitboard)
        requires
            i < 64,
        ensures
            r@ == self@.insert(i as int),
    {
        proof {
            lemma_set_bit(self.bits, i as u64);
        }
        let r = Bitboard { bits: self.bits | (1u64 << (i as u64)) };
        assert(r@ =~= self@.insert(i as int));
        r
    }

    /// How many squares of the set have an index below `n`.
    pub fn count_below(self, n: u8) -> (r: u8)
        requires
            n <= 64,
        ensures
            r == count_below(self@, n as int),
            r <= n,
    {
        let mut r: u8 = 0;
        let mut i: u8 = 0;
        while i < n
            invariant
                i <= n <= 64,
                r <= i,
                r == count_below(self@, i as int),
            decreases n - i,
        {
            if self.has(i) {
                r = r + 1;
            }
            i = i + 1;
        }
        r
    }

    /// How many squares the set holds.
    pub fn count(self) -> (r: u8)
        ensures
            r == count(self@),
            r <= 64,
    {
        self.count_below(64)
    }

    /// The square of the set that has `k` squares of the set below it.
    pub fn nth(self, k: u8) -> (r: Square)
        requires
            k < count(self@),
        ensures
            is_nth(self@, k as int, r.idx as int),
            r.idx as int == nth(self@, k as int),
    {
        let mut seen: u8 = 0;
        let mut i: u8 = 0;
        while i < 64 && !(self.has(i) && seen == k)
            invariant
                i <= 64,
                seen <= i,
                seen == count_below(self@, i as int),
                seen <= k,
                k < count(self@),
            decreases 64 - i,
        {
            if self.has(i) {
                seen = seen + 1;
            }
            i = i + 1;
        }
        proof {
            assert(is_nth(self@, k as int, i as int));
            lemma_nth_unique(self@, k as int, i as int, nth(self@, k as int));
        }
        Square::new(i)
    }
}

} // verus!
