//! Writing of the plies that follow a stem.
use vstd::prelude::*;

use crate::chess::bitboard::{count, count_below};
use crate::chess::chess_move::Move;
use crate::chess::position::{Position, PositionModel};
use crate::common::arithmetic::{signed_to_unsigned, used_bits_safe, wrapping_negation};
use crate::common::bits::bytes_of;
use crate::common::entry::{EntryModel, TrainingDataEntry};
use crate::common::move_numbers::{number_move, pseudo_legal};
use crate::common::move_text::{lemma_move_bits_len, lemma_ply_bits_len, ply_bits, Ply};
use crate::writer::bitwriter::BitWriter;

verus! {

/// The plies that have been written since the last stem.
#[derive(Debug)]
pub struct PackedMoveScoreList {
    pub num_plies: u16,
    pub writer: BitWriter,
    pub last_score: i16,
    pub last_draw: i16,
}

/// What a list of plies means: how many there are, their bits, and the numbers from which the next
/// ones differ.
#[verifier::ext_equal]
pub struct PlyListModel {
    pub num_plies: u16,
    pub bits: Seq<bool>,
    pub last_score: i16,
    pub last_draw: i16,
}

impl View for PackedMoveScoreList {
    type V = PlyListModel;

    open spec fn view(&self) -> PlyListModel {
        PlyListModel {
            num_plies: self.num_plies,
            bits: self.writer@,
            last_score: self.last_score,
            last_draw: self.last_draw,
        }
    }
}

impl PlyListModel {
    /// The list with no ply, to follow the stem `e`.
    pub open spec fn start(e: EntryModel) -> PlyListModel {
        PlyListModel {
            num_plies: 0,
            bits: Seq::empty(),
            last_score: wrapping_negation(e.score),
            last_draw: e.draw_score,
        }
    }

    /// The list with one more ply.
    pub open spec fn with_ply(self, p: PositionModel, x: Ply) -> PlyListModel {
        PlyListModel {
            num_plies: (self.num_plies + 1) as u16,
            bits: self.bits + ply_bits(p, x, self.last_score, self.last_draw),
            last_score: wrapping_negation(x.score),
            last_draw: x.draw_score,
        }
    }
}

impl PackedMoveScoreList {
    /// Whether no ply takes more than 56 bits.
    pub open spec fn wf(&self) -> bool {
        &&& self.writer.wf()
        &&& self@.bits.len() <= 56 * self.num_plies
    }

    /// The list with no ply.
    pub fn new() -> (r: PackedMoveScoreList)
        ensures
            r.wf(),
            r@ == (PlyListModel {
                num_plies: 0,
                bits: Seq::empty(),
                last_score: 0,
                last_draw: 0,
            }),
    {
        PackedMoveScoreList {
            num_plies: 0,
            writer: BitWriter::new(),
            last_score: 0,
            last_draw: 0,
        }
    }

    /// Forgets the plies; the next ones follow the stem `entry`.
    pub fn clear(&mut self, entry: &TrainingDataEntry)
        ensures
            final(self).wf(),
            final(self)@ == PlyListModel::start(entry@),
    {
        self.num_plies = 0;
        self.writer.clear();
        self.last_score = 0i16.wrapping_sub(entry.score);
        self.last_draw = entry.draw_score;
    }

    /// Adds a ply. The score is stored as what it differs from the negated last one, the draw score
    /// as what it differs from the last one.
    pub fn add_move_score(&mut self, pos: &Position, mv: Move, score: i16, draw_score: i16)
        requires
            old(self).wf(),
            pseudo_legal(pos@, mv),
            old(self)@.num_plies < u16::MAX,
        ensures
            final(self).wf(),
            final(self)@ == old(self)@.with_ply(pos@, Ply { mv, score, draw_score }),
    {
        let ghost before = self@.bits;
        let ghost x = Ply { mv, score, draw_score };
        proof {
            lemma_move_bits_len(pos@, mv);
            lemma_ply_bits_len(pos@, x, self.last_score, self.last_draw);
        }
        let ours = pos.pieces_bb(pos.side_to_move());
        let piece: u8 = ours.count_below(mv.from.index());
        let (k, n) = number_move(pos, mv);
        self.writer.write_bits(piece, used_bits_safe(ours.count() as u16));
        self.writer.write_bits(k, used_bits_safe(n));
        self.writer.write_vle(signed_to_unsigned(score.wrapping_sub(self.last_score)));
        self.writer.write_vle(signed_to_unsigned(draw_score.wrapping_sub(self.last_draw)));
        assert(self.writer@ =~= before + ply_bits(pos@, x, self.last_score, self.last_draw));
        self.last_score = 0i16.wrapping_sub(score);
        self.last_draw = draw_score;
        self.num_plies = self.num_plies + 1;
    }

    /// The bytes of the plies.
    pub fn movetext(&self) -> (r: &Vec<u8>)
        requires
            self.wf(),
        ensures
            r@ == bytes_of(self@.bits),
    {
        self.writer.bytes()
    }
}

} // verus!
