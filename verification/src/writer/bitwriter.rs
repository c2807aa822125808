//! Writing of single bits.
use vstd::prelude::*;

use crate::common::bits::{
    bit_or_zero, bits_of, byte_bit, bytes_for, bytes_of, lemma_value_of_byte, to_bits,
};
use crate::common::vle::vle_bits;

verus! {

/// Bytes that are filled bit by bit.
#[derive(Debug)]
pub struct BitWriter {
    pub bytes: Vec<u8>,
    pub bits_left: u8,
}

impl View for BitWriter {
    type V = Seq<bool>;

    /// The bits that have been written.
    open spec fn view(&self) -> Seq<bool> {
        bits_of(self.bytes@).take(8 * self.bytes@.len() - self.bits_left)
    }
}

impl BitWriter {
    /// Whether less than a byte is left to fill, and the bits that are left are unset.
    pub open spec fn wf(&self) -> bool {
        &&& self.bits_left < 8
        &&& self.bits_left > 0 ==> self.bytes@.len() > 0
        &&& forall|j: int|
            8 - self.bits_left <= j < 8 ==> !#[trigger] byte_bit(self.bytes@.last(), j)
    }

    /// A writer that has written nothing.
    pub fn new() -> (r: BitWriter)
        ensures
            r.wf(),
            r@ == Seq::<bool>::empty(),
    {
        let r = BitWriter { bytes: Vec::new(), bits_left: 0 };
        assert(r@ =~= Seq::<bool>::empty());
        r
    }

    /// Forgets what has been written.
    pub fn clear(&mut self)
        ensures
            final(self).wf(),
            final(self)@ == Seq::<bool>::empty(),
    {
        self.bytes.clear();
        self.bits_left = 0;
        assert(self@ =~= Seq::<bool>::empty());
    }

    fn push_bit(&mut self, bit: bool)
        requires
            old(self).wf(),
        ensures
            final(self).wf(),
            final(self)@ == old(self)@.push(bit),
    {
        let ghost before = self@;
        if self.bits_left == 0 {
            self.bytes.push(0);
            self.bits_left = 8;
            proof {
                assert forall|j: int| 0 <= j < 8 implies !#[trigger] byte_bit(0, j) by {
                    let s: u8 = (7 - j) as u8;
                    assert((0u8 >> s) & 1 == 0) by (bit_vector);
                }
            }
            assert(self@ =~= before);
        }
        let i: usize = self.bytes.len() - 1;
        let byte: u8 = self.bytes[i];
        let s: u8 = self.bits_left - 1;
        assert(byte == self.bytes@.last());
        assert(forall|j: int| 7 - s <= j < 8 ==> !#[trigger] byte_bit(byte, j));
        let next: u8 = if bit {
            byte | (1u8 << s)
        } else {
            byte
        };
        proof {
            assert forall|j: int| 0 <= j < 8 implies #[trigger] byte_bit(next, j) == (byte_bit(
                byte,
                j,
            ) || (bit && j == 7 - s)) by {
                let t: u8 = (7 - j) as u8;
                assert((((byte | (1u8 << s)) >> t) & 1 == 1) == (((byte >> t) & 1 == 1) || t == s))
                    by (bit_vector)
                    requires
                        s < 8,
                        t < 8,
                ;
            }
        }
        self.bytes[i] = next;
        self.bits_left = s;
        proof {
            assert(self.bytes@.last() == next);
            assert(!byte_bit(byte, 7 - s));
            assert(self@ =~= before.push(bit)) by {
                assert(self@.len() == before.len() + 1);
                assert forall|k: int| 0 <= k < self@.len() implies self@[k] == before.push(bit)[k] by {
                    if k < before.len() && k / 8 == i as int {
                        assert(byte_bit(next, k % 8) == byte_bit(byte, k % 8));
                    } else if k == before.len() {
                        assert(k / 8 == i as int && k % 8 == 7 - s);
                    }
                }
            }
        }
    }

    /// Writes the lowest `n` bits of `v`, the highest of them first.
    pub fn write_bits(&mut self, v: u8, n: u8)
        requires
            old(self).wf(),
            n <= 8,
        ensures
            final(self).wf(),
            final(self)@ == old(self)@ + to_bits(v as nat, n as nat),
    {
        let ghost before = self@;
        let ghost mut high: u8 = if n == 8 {
            0
        } else {
            v >> n
        };
        let mut i: u8 = n;
        proof {
            assert(before + to_bits(high as nat, 0) =~= before);
        }
        while i > 0
            invariant
                i <= n <= 8,
                self.wf(),
                high == if i == 8 {
                    0
                } else {
                    v >> i
                },
                self@ == before + to_bits(high as nat, (n - i) as nat),
            decreases i,
        {
            let s: u8 = i - 1;
            let x: u8 = v >> s;
            let bit: bool = x & 1 == 1;
            self.push_bit(bit);
            proof {
                assert((x & 1 == 1) == (x % 2 == 1) && x / 2 == (if i == 8 {
                    0
                } else {
                    v >> i
                })) by (bit_vector)
                    requires
                        s < 8,
                        i == s + 1,
                        x == v >> s,
                ;
                assert(before + to_bits(high as nat, (n - i) as nat).push(bit) =~= (before
                    + to_bits(high as nat, (n - i) as nat)).push(bit));
                assert(to_bits(x as nat, (n - s) as nat) == to_bits(
                    (x / 2) as nat,
                    (n - i) as nat,
                ).push(bit));
                high = x;
            }
            i = s;
        }
        proof {
            assert(v >> 0u8 == v) by (bit_vector);
        }
    }

    /// Writes the number `v` in blocks of four digits.
    pub fn write_vle(&mut self, v: u16)
        requires
            old(self).wf(),
        ensures
            final(self).wf(),
            final(self)@ == old(self)@ + vle_bits(v as nat),
    {
        let ghost before = self@;
        let mut x: u16 = v;
        while x >= 16
            invariant
                self.wf(),
                before + vle_bits(v as nat) == self@ + vle_bits(x as nat),
            decreases x,
        {
            let ghost here = self@;
            let block: u8 = (16 + x % 16) as u8;
            self.write_bits(block, 5);
            assert(here + vle_bits(x as nat) =~= self@ + vle_bits((x / 16) as nat));
            x = x / 16;
        }
        self.write_bits(x as u8, 5);
    }

    /// The bytes that hold what has been written.
    pub fn bytes(&self) -> (r: &Vec<u8>)
        requires
            self.wf(),
        ensures
            r@ == bytes_of(self@),
    {
        proof {
            let bits = self@;
            assert(bytes_for(bits.len()) == self.bytes@.len());
            assert forall|i: int| 0 <= i < self.bytes@.len() implies bytes_of(bits)[i]
                == self.bytes@[i] by {
                assert forall|j: int| 0 <= j < 8 implies (bit_or_zero(bits, 8 * i + j) == 1)
                    == #[trigger] byte_bit(self.bytes@[i], j) by {
                    if 8 * i + j < bits.len() {
                        assert((8 * i + j) / 8 == i && (8 * i + j) % 8 == j);
                    } else {
                        assert(self.bytes@[i] == self.bytes@.last());
                        assert(!byte_bit(self.bytes@.last(), j));
                    }
                }
                lemma_value_of_byte(self.bytes@[i], bits, 8 * i);
            }
            assert(self.bytes@ =~= bytes_of(bits));
        }
        &self.bytes
    }
}

} // verus!
