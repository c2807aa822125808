//! Reading of single bits.
use vstd::prelude::*;

use crate::common::arithmetic::{lemma_used_bits, pow2, used_bits_safe};
use crate::common::bits::{bits_of, byte_bit, bytes_for, lemma_value_bound, value};
use crate::common::move_text::read_choice;
use crate::common::vle::{pow16, read_vle};

verus! {

/// A place among the bits of a sequence of bytes: a byte, and how many of its bits have been read.
#[derive(Debug, Clone, Copy)]
pub struct BitReader {
    pub offset: usize,
    pub used: u8,
}

impl BitReader {
    /// Whether fewer than eight bits of the byte have been read.
    pub open spec fn wf(self) -> bool {
        self.used < 8
    }

    /// How many bits have been read.
    pub open spec fn pos(self) -> nat {
        (8 * self.offset + self.used) as nat
    }

    /// The place before the first bit.
    pub fn new() -> (r: BitReader)
        ensures
            r.wf(),
            r.pos() == 0,
    {
        BitReader { offset: 0, used: 0 }
    }

    /// Whether `n` more bits can be read from `data`.
    pub fn has_bits(&self, data: &[u8], n: u8) -> (r: bool)
        requires
            self.wf(),
            n <= 8,
        ensures
            r == (self.pos() + n <= 8 * data@.len()),
    {
        if self.offset >= data.len() {
            return self.offset == data.len() && self.used == 0 && n == 0;
        }
        self.used + n <= 8 || data.len() - self.offset >= 2
    }

    /// Reads the next `n` bits of `data`, the highest first.
    pub fn read_bits(&mut self, data: &[u8], n: u8) -> (r: u8)
        requires
            old(self).wf(),
            n <= 8,
            old(self).pos() + n <= 8 * data@.len(),
        ensures
            final(self).wf(),
            final(self).pos() == old(self).pos() + n,
            r == value(bits_of(data@), old(self).pos() as int, n as int),
    {
        let ghost bits = bits_of(data@);
        let ghost start = self.pos() as int;
        let mut v: u16 = 0;
        let mut i: u8 = 0;
        while i < n
            invariant
                i <= n <= 8,
                self.wf(),
                bits == bits_of(data@),
                start >= 0,
                self.pos() == start + i,
                start + n <= 8 * data@.len(),
                v == value(bits, start, i as int),
                v < pow2(i as nat),
            decreases n - i,
        {
            proof {
                reveal_with_fuel(pow2, 9);
                lemma_value_bound(bits, start, (i + 1) as nat);
                assert(bits[start + i] == byte_bit(data@[self.offset as int], self.used as int));
            }
            let bit: bool = (data[self.offset] >> (7 - self.used)) & 1 == 1;
            v = 2 * v + (if bit {
                1u16
            } else {
                0
            });
            if self.used == 7 {
                self.used = 0;
                self.offset = self.offset + 1;
            } else {
                self.used = self.used + 1;
            }
            i = i + 1;
        }
        proof {
            reveal_with_fuel(pow2, 9);
        }
        v as u8
    }

    /// Reads the number that is chosen among `n`. There is none if `data` ends before it, or if
    /// the number is not below `n`.
    pub fn read_choice(&mut self, data: &[u8], n: u16) -> (r: Option<u8>)
        requires
            old(self).wf(),
            n <= 256,
        ensures
            final(self).wf(),
            match read_choice(bits_of(data@), old(self).pos() as int, n as nat) {
                Some((k, end)) => r == Some(k as u8) && k < 256 && final(self).pos() == end,
                None => r is None,
            },
    {
        let ghost bits = bits_of(data@);
        if n == 0 {
            return None;
        }
        let count: u8 = used_bits_safe(n);
        proof {
            lemma_used_bits(0, n as nat);
        }
        if !self.has_bits(data, count) {
            return None;
        }
        let k: u8 = self.read_bits(data, count);
        if (k as u16) < n {
            Some(k)
        } else {
            None
        }
    }

    fn read_blocks(&mut self, data: &[u8], blocks: u8) -> (r: Option<u16>)
        requires
            old(self).wf(),
            blocks <= 4,
        ensures
            final(self).wf(),
            match read_vle(bits_of(data@), old(self).pos() as int, blocks as nat) {
                Some((v, end)) => r == Some(v as u16) && v < pow16(blocks as nat)
                    && final(self).pos() == end,
                None => r is None,
            },
        decreases blocks,
    {
        if blocks == 0 || !self.has_bits(data, 5) {
            return None;
        }
        proof {
            lemma_value_bound(bits_of(data@), self.pos() as int, 5);
            reveal_with_fuel(pow2, 6);
            reveal_with_fuel(pow16, 5);
        }
        let block: u8 = self.read_bits(data, 5);
        if block < 16 {
            return Some(block as u16);
        }
        match self.read_blocks(data, blocks - 1) {
            Some(high) => Some((block - 16) as u16 + 16 * high),
            None => None,
        }
    }

    /// Reads a number of at most four blocks. There is none if `data` ends before its last block,
    /// or if more blocks follow.
    pub fn read_vle(&mut self, data: &[u8]) -> (r: Option<u16>)
        requires
            old(self).wf(),
        ensures
            final(self).wf(),
            match read_vle(bits_of(data@), old(self).pos() as int, 4) {
                Some((v, end)) => r == Some(v as u16) && v < 0x10000 && final(self).pos() == end,
                None => r is None,
            },
    {
        proof {
            reveal_with_fuel(pow16, 5);
        }
        self.read_blocks(data, 4)
    }

    /// How many bytes have been read, in whole or in part.
    pub fn num_read_bytes(&self) -> (r: usize)
        requires
            self.wf(),
            self.used > 0 ==> self.offset < usize::MAX,
        ensures
            r == bytes_for(self.pos()),
    {
        if self.used == 0 {
            self.offset
        } else {
            self.offset + 1
        }
    }
}

} // verus!
