//! Reading of the plies that follow a stem.
use vstd::prelude::*;

use crate::chess::bitboard::{count, nth};
use crate::chess::chess_move::Move;
use crate::chess::position::Position;
use crate::common::arithmetic::{unsigned_to_signed, wrapping_negation};
use crate::common::bits::{bits_of, bytes_for};
use crate::common::entry::{EntryModel, TrainingDataEntry};
use crate::common::move_numbers::{count_moves, move_of_number};
use crate::common::move_text::{read_choice, read_delta, read_move, read_ply};
use crate::reader::bitreader::BitReader;

verus! {

/// Reads the entries that follow a stem, one after the other.
#[derive(Debug, Clone, Copy)]
pub struct PackedMoveScoreListReader {
    pub entry: TrainingDataEntry,
    pub num_plies: u16,
    pub num_read: u16,
    pub bits: BitReader,
    pub last_score: i16,
    pub last_draw: i16,
}

/// What a reader of plies means: the entry that was read last, how many plies there are and have
/// been read, how many bits they took, and the numbers from which the next ones differ.
#[verifier::ext_equal]
pub struct MoveListModel {
    pub entry: EntryModel,
    pub num_plies: u16,
    pub num_read: u16,
    pub pos: nat,
    pub last_score: i16,
    pub last_draw: i16,
}

impl View for PackedMoveScoreListReader {
    type V = MoveListModel;

    open spec fn view(&self) -> MoveListModel {
        MoveListModel {
            entry: self.entry@,
            num_plies: self.num_plies,
            num_read: self.num_read,
            pos: self.bits.pos(),
            last_score: self.last_score,
            last_draw: self.last_draw,
        }
    }
}

impl MoveListModel {
    /// The reader of `num_plies` plies after the stem `entry`.
    pub open spec fn start(entry: EntryModel, num_plies: u16) -> MoveListModel {
        MoveListModel {
            entry,
            num_plies,
            num_read: 0,
            pos: 0,
            last_score: wrapping_negation(entry.score),
            last_draw: entry.draw_score,
        }
    }

    /// Whether plies are left.
    pub open spec fn has_next(self) -> bool {
        self.num_read < self.num_plies
    }

    /// The entry of the next ply, and the reader behind it. The position is the one after the last
    /// move, the ply is the next one, and the result is that of the other side. There is none if no
    /// ply is left, if the bits do not hold one, or if the ply or the result leaves its range.
    pub open spec fn next(self, bits: Seq<bool>) -> Option<(EntryModel, MoveListModel)> {
        let last = self.entry;
        let pos = last.pos.after_move(last.mv);
        if !self.has_next() || last.ply == u16::MAX || last.result == i16::MIN {
            None
        } else {
            match read_ply(pos, bits, self.pos as int, self.last_score, self.last_draw) {
                None => None,
                Some((x, end)) => {
                    let entry = EntryModel {
                        pos,
                        mv: x.mv,
                        score: x.score,
                        ply: (last.ply + 1) as u16,
                        result: (-last.result) as i16,
                        draw_score: x.draw_score,
                    };
                    Some(
                        (
                            entry,
                            MoveListModel {
                                entry,
                                num_plies: self.num_plies,
                                num_read: (self.num_read + 1) as u16,
                                pos: end as nat,
                                last_score: wrapping_negation(x.score),
                                last_draw: x.draw_score,
                            },
                        ),
                    )
                },
            }
        }
    }
}

impl PackedMoveScoreListReader {
    /// Whether the place among the bits is a place among bits.
    pub open spec fn wf(&self) -> bool {
        self.bits.wf()
    }

    /// The reader of `num_plies` plies after the stem `entry`.
    pub fn new(entry: TrainingDataEntry, num_plies: u16) -> (r: PackedMoveScoreListReader)
        ensures
            r.wf(),
            r@ == MoveListModel::start(entry@, num_plies),
    {
        PackedMoveScoreListReader {
            entry,
            num_plies,
            num_read: 0,
            bits: BitReader::new(),
            last_score: 0i16.wrapping_sub(entry.score),
            last_draw: entry.draw_score,
        }
    }

    /// Whether plies are left.
    pub fn has_next(&self) -> (r: bool)
        ensures
            r == self@.has_next(),
    {
        self.num_read < self.num_plies
    }

    /// How many bytes the plies that have been read take.
    pub fn num_read_bytes(&self) -> (r: usize)
        requires
            self.wf(),
            self@.pos <= 8 * usize::MAX,
        ensures
            r == bytes_for(self@.pos),
    {
        self.bits.num_read_bytes()
    }

    fn read_move(bits: &mut BitReader, pos: &Position, movetext: &[u8]) -> (r: Option<Move>)
        requires
            old(bits).wf(),
        ensures
            final(bits).wf(),
            match read_move(pos@, bits_of(movetext@), old(bits).pos() as int) {
                Some((m, end)) => r == Some(m) && final(bits).pos() == end,
                None => r is None,
            },
    {
        let ours = pos.pieces_bb(pos.side_to_move());
        let n: u8 = ours.count();
        let piece: u8 = match bits.read_choice(movetext, n as u16) {
            Some(k) => k,
            None => {
                return None;
            },
        };
        let from: u8 = ours.nth(piece).index();
        let k: u8 = match bits.read_choice(movetext, count_moves(pos, from)) {
            Some(k) => k,
            None => {
                return None;
            },
        };
        move_of_number(pos, from, k)
    }

    fn read_delta(bits: &mut BitReader, last: i16, movetext: &[u8]) -> (r: Option<i16>)
        requires
            old(bits).wf(),
        ensures
            final(bits).wf(),
            match read_delta(bits_of(movetext@), old(bits).pos() as int, last) {
                Some((x, end)) => r == Some(x) && final(bits).pos() == end,
                None => r is None,
            },
    {
        match bits.read_vle(movetext) {
            Some(v) => Some(last.wrapping_add(unsigned_to_signed(v))),
            None => None,
        }
    }

    /// Reads the entry of the next ply from the bytes of the plies. There is none if no ply is
    /// left, if the bytes do not hold one, or if the ply or the result leaves its range; the reader
    /// then stays where it is.
    pub fn try_next_entry(&mut self, movetext: &[u8]) -> (r: Option<TrainingDataEntry>)
        requires
            old(self).wf(),
        ensures
            final(self).wf(),
            match old(self)@.next(bits_of(movetext@)) {
                Some((e, next)) => r is Some && r->0@ == e && final(self)@ == next,
                None => r is None && *final(self) == *old(self),
            },
    {
        let last = self.entry;
        if !self.has_next() || last.ply == u16::MAX || last.result == i16::MIN {
            return None;
        }
        let pos = last.pos.after_move(last.mv);
        let mut bits = self.bits;
        let mv = match PackedMoveScoreListReader::read_move(&mut bits, &pos, movetext) {
            Some(mv) => mv,
            None => {
                return None;
            },
        };
        let score: i16 = match PackedMoveScoreListReader::read_delta(
            &mut bits,
            self.last_score,
            movetext,
        ) {
            Some(x) => x,
            None => {
                return None;
            },
        };
        let draw_score: i16 = match PackedMoveScoreListReader::read_delta(
            &mut bits,
            self.last_draw,
            movetext,
        ) {
            Some(x) => x,
            None => {
                return None;
            },
        };
        let entry = TrainingDataEntry {
            pos,
            mv,
            score,
            ply: last.ply + 1,
            result: -last.result,
            draw_score,
        };
        self.entry = entry;
        self.num_read = self.num_read + 1;
        self.bits = bits;
        self.last_score = 0i16.wrapping_sub(score);
        self.last_draw = draw_score;
        Some(entry)
    }
}

} // verus!
