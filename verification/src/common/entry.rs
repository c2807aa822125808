//! Training data entries and their stored form.
use vstd::prelude::*;

use crate::chess::chess_move::Move;
use crate::chess::position::{Position, PositionModel};
use crate::common::arithmetic::{
    be16, from_be16, lemma_be16, law_unzigzag_zigzag, law_zigzag_unzigzag, signed_to_unsigned,
    unsigned_to_signed, unzigzag, zigzag,
};
use crate::common::compressed_move::{
    law_move_round_trip, law_move_stored_again, move_storable, pack_move, packable, unpack_move,
    CompressedMove,
};
use crate::common::compressed_position::{
    compressed, decompressed, ep_marks_inside, fits, law_position_bytes_round_trip,
    law_position_round_trip, law_position_stored_again, lemma_clocks_not_stored, position_bytes,
    position_of_bytes, storable, CompressedPosition,
};

verus! {

/// A single training data entry.
#[derive(Debug, Clone, Copy, PartialEq, Eq)]
pub struct TrainingDataEntry {
    /// The position of the board.
    pub pos: Position,
    /// The move which will be played on this position.
    pub mv: Move,
    /// The score of the position, relative to the side to move.
    pub score: i16,
    /// The game ply of the position.
    pub ply: u16,
    /// The game result: 1, 0, -1 for win, draw, loss for the side to move.
    pub result: i16,
    /// A second value channel, intended for a draw score. Unlike `score` it does not change its
    /// sign with the side to move.
    pub draw_score: i16,
}

/// What an entry means.
#[verifier::ext_equal]
pub struct EntryModel {
    pub pos: PositionModel,
    pub mv: Move,
    pub score: i16,
    pub ply: u16,
    pub result: i16,
    pub draw_score: i16,
}

impl View for TrainingDataEntry {
    type V = EntryModel;

    open spec fn view(&self) -> EntryModel {
        EntryModel {
            pos: self.pos@,
            mv: self.mv,
            score: self.score,
            ply: self.ply,
            result: self.result,
            draw_score: self.draw_score,
        }
    }
}

impl EntryModel {
    /// Whether `other` is the entry of the same game one ply after this one: the result is that of
    /// the other side, the ply is the next one, and the position is the one after the move.
    pub open spec fn is_continued_by(self, other: EntryModel) -> bool {
        &&& self.result == -other.result
        &&& self.ply + 1 == other.ply
        &&& self.pos.after_move(self.mv) == other.pos
    }

    /// Whether the two entries can be compared without leaving the range of their numbers.
    pub open spec fn comparable(self, other: EntryModel) -> bool {
        &&& other.result != i16::MIN
        &&& self.result == -other.result ==> self.ply < u16::MAX
    }
}

impl TrainingDataEntry {
    /// Whether `other` is the entry of the same game one ply after this one.
    pub fn is_continuation(&self, other: &TrainingDataEntry) -> (r: bool)
        requires
            self@.comparable(other@),
        ensures
            r == self@.is_continued_by(other@),
    {
        self.result == -other.result && self.ply + 1 == other.ply && self.pos.after_move(self.mv)
            == other.pos
    }
}

/// An entry in 34 bytes.
#[derive(Debug, Clone)]
pub struct PackedTrainingDataEntry {
    pub data: [u8; 34],
}

/// The ply in the low fourteen bits and the result in the high two.
pub open spec fn ply_result(ply: u16, result: i16) -> u16 {
    ply | (zigzag(result) << 14u16)
}

/// The 34 bytes of an entry: the position, the move, the score, the ply with the result, the rule50
/// counter and the draw score, each with its high byte first.
pub open spec fn entry_bytes(e: EntryModel) -> Seq<u8> {
    position_bytes(compressed(e.pos)) + be16(pack_move(e.mv)) + be16(zigzag(e.score)) + be16(
        ply_result(e.ply, e.result),
    ) + be16(e.pos.rule50_counter) + be16(zigzag(e.draw_score))
}

/// The entry that the 34 bytes `data` hold.
pub open spec fn entry_of_bytes(data: Seq<u8>) -> EntryModel {
    let pr = from_be16(data, 28);
    let ply = pr & 0x3FFF;
    EntryModel {
        pos: PositionModel {
            rule50_counter: from_be16(data, 30),
            fullmove: (ply / 2 + 1) as u16,
            ..decompressed(position_of_bytes(data))
        },
        mv: unpack_move(from_be16(data, 24)),
        score: unzigzag(from_be16(data, 26)),
        ply,
        result: unzigzag(pr >> 14u16),
        draw_score: unzigzag(from_be16(data, 32)),
    }
}

/// Whether an entry has a stored form: its position fits, and its move has one.
pub open spec fn packable_entry(e: EntryModel) -> bool {
    fits(e.pos) && packable(e.mv)
}

/// Whether an entry can be told from its stored form: its position and its move can, the number of
/// the move in the position agrees with the ply, and the ply and the result fit into their bits.
pub open spec fn entry_storable(e: EntryModel) -> bool {
    &&& storable(e.pos)
    &&& move_storable(e.mv)
    &&& e.pos.fullmove == e.ply / 2 + 1
    &&& e.ply < 0x4000
    &&& -2 <= e.result <= 1
}

/// The ply and the result can be told from the number that holds both.
proof fn lemma_ply_result(ply: u16, result: i16)
    requires
        ply < 0x4000,
        -2 <= result <= 1,
    ensures
        ply_result(ply, result) & 0x3FFF == ply,
        unzigzag(ply_result(ply, result) >> 14u16) == result,
{
    let z: u16 = zigzag(result);
    assert((ply | (z << 14u16)) & 0x3FFF == ply && (ply | (z << 14u16)) >> 14u16 == z)
        by (bit_vector)
        requires
            ply < 0x4000,
            z < 4,
    ;
    law_unzigzag_zigzag(result);
}

/// An entry has 34 bytes.
pub proof fn lemma_entry_bytes_len(e: EntryModel)
    ensures
        entry_bytes(e).len() == 34,
{
}

/// A storable entry is read back from its 34 bytes.
pub proof fn law_entry_round_trip(e: EntryModel)
    requires
        entry_storable(e),
    ensures
        ep_marks_inside(position_of_bytes(entry_bytes(e))),
        entry_of_bytes(entry_bytes(e)) == e,
{
    let data = entry_bytes(e);
    let c = compressed(e.pos);
    let tail = be16(pack_move(e.mv)) + be16(zigzag(e.score)) + be16(ply_result(e.ply, e.result))
        + be16(e.pos.rule50_counter) + be16(zigzag(e.draw_score));
    assert(data =~= position_bytes(c) + tail);
    law_position_bytes_round_trip(c, tail);
    law_position_round_trip(e.pos);
    law_move_round_trip(e.mv);
    lemma_be16(pack_move(e.mv), data, 24);
    lemma_be16(zigzag(e.score), data, 26);
    lemma_be16(ply_result(e.ply, e.result), data, 28);
    lemma_be16(e.pos.rule50_counter, data, 30);
    lemma_be16(zigzag(e.draw_score), data, 32);
    law_unzigzag_zigzag(e.score);
    law_unzigzag_zigzag(e.draw_score);
    lemma_ply_result(e.ply, e.result);
    assert(entry_of_bytes(data).pos =~= e.pos);
    assert(entry_of_bytes(data) =~= e);
}

/// The number that holds the ply and the result can be told from what is read of it.
proof fn lemma_ply_result_again(pr: u16)
    ensures
        ply_result(pr & 0x3FFF, unzigzag(pr >> 14u16)) == pr,
{
    law_zigzag_unzigzag(pr >> 14u16);
    assert((pr & 0x3FFF) | ((pr >> 14u16) << 14u16) == pr) by (bit_vector);
}

/// The entry that is read from 34 bytes has the same 34 bytes as the entry that they were made of,
/// also where the two differ.
pub proof fn law_entry_stored_again(e: EntryModel)
    requires
        e.pos.board.len() == 64,
        packable_entry(e),
    ensures
        ep_marks_inside(position_of_bytes(entry_bytes(e))),
        packable_entry(entry_of_bytes(entry_bytes(e))),
        entry_bytes(entry_of_bytes(entry_bytes(e))) == entry_bytes(e),
{
    let data = entry_bytes(e);
    let c = compressed(e.pos);
    let pr = ply_result(e.ply, e.result);
    let tail = be16(pack_move(e.mv)) + be16(zigzag(e.score)) + be16(pr) + be16(
        e.pos.rule50_counter,
    ) + be16(zigzag(e.draw_score));
    assert(data =~= position_bytes(c) + tail);
    law_position_bytes_round_trip(c, tail);
    law_position_stored_again(e.pos);
    law_move_stored_again(e.mv);
    lemma_be16(pack_move(e.mv), data, 24);
    lemma_be16(zigzag(e.score), data, 26);
    lemma_be16(pr, data, 28);
    lemma_be16(e.pos.rule50_counter, data, 30);
    lemma_be16(zigzag(e.draw_score), data, 32);
    law_unzigzag_zigzag(e.score);
    law_unzigzag_zigzag(e.draw_score);
    lemma_ply_result_again(pr);
    let r = entry_of_bytes(data);
    lemma_clocks_not_stored(r.pos, decompressed(c));
    assert(entry_bytes(r) =~= data);
}

impl Default for PackedTrainingDataEntry {
    /// 34 zero bytes.
    fn default() -> (r: PackedTrainingDataEntry)
        ensures
            r.data@ == Seq::new(34, |i: int| 0u8),
    {
        let r = PackedTrainingDataEntry { data: [0;34] };
        assert(r.data@ =~= Seq::new(34, |i: int| 0u8));
        r
    }
}

impl PackedTrainingDataEntry {
    /// The packed entry with the 34 bytes of `slice`.
    pub fn from_slice(slice: &[u8]) -> (r: PackedTrainingDataEntry)
        requires
            slice@.len() == 34,
        ensures
            r.data@ == slice@,
    {
        let mut data: [u8; 34] = [0;34];
        let mut i: usize = 0;
        while i < 34
            invariant
                i <= 34,
                slice@.len() == 34,
                forall|j: int| 0 <= j < i ==> data@[j] == slice@[j],
            decreases 34 - i,
        {
            data[i] = slice[i];
            i = i + 1;
        }
        assert(data@ =~= slice@);
        PackedTrainingDataEntry { data }
    }

    /// The number of bytes of a packed entry.
    pub fn byte_size() -> (r: usize)
        ensures
            r == 34,
    {
        34
    }

    /// Whether the bytes hold an entry: no pawn on the last rank is marked as one that can be
    /// captured en passant.
    pub fn can_unpack(&self) -> (r: bool)
        ensures
            r == ep_marks_inside(position_of_bytes(self.data@)),
    {
        CompressedPosition::read_from_big_endian(&self.data).can_decompress()
    }

    /// The entry that the bytes hold.
    pub fn unpack_entry(&self) -> (r: TrainingDataEntry)
        requires
            ep_marks_inside(position_of_bytes(self.data@)),
        ensures
            r@ == entry_of_bytes(self.data@),
    {
        let compressed_pos = CompressedPosition::read_from_big_endian(&self.data);
        let mut pos = compressed_pos.decompress();
        let compressed_move = CompressedMove::read_from_big_endian(&self.data[24..34]);
        let mv = compressed_move.decompress();
        let score: i16 = unsigned_to_signed(self.read_u16_be(26));
        let pr: u16 = self.read_u16_be(28);
        let ply: u16 = pr & 0x3FFF;
        let result: i16 = unsigned_to_signed(pr >> 14);
        pos.set_ply(ply);
        pos.set_rule50_counter(self.read_u16_be(30));
        let draw_score: i16 = unsigned_to_signed(self.read_u16_be(32));
        let r = TrainingDataEntry { pos, mv, score, ply, result, draw_score };
        assert(r@ =~= entry_of_bytes(self.data@));
        r
    }

    /// Whether `entry` has a stored form: it has at most 32 pieces, and its move has one.
    pub fn can_pack(entry: &TrainingDataEntry) -> (r: bool)
        ensures
            r == packable_entry(entry@),
    {
        let mv = entry.mv;
        entry.pos.occupied().count() <= 32 && (mv.from == mv.to || (mv.from.on_board()
            && mv.to.on_board()))
    }

    /// The stored form of `entry`.
    pub fn from_entry(entry: &TrainingDataEntry) -> (r: PackedTrainingDataEntry)
        requires
            packable_entry(entry@),
        ensures
            r.data@ == entry_bytes(entry@),
    {
        let mut data: [u8; 34] = [0;34];
        let compressed_pos = CompressedPosition::compress(&entry.pos);
        compressed_pos.write_to_big_endian(&mut data);
        let compressed_move = CompressedMove::compress(&entry.mv);
        {
            let (head, tail) = data.split_at_mut(24);
            compressed_move.write_to_big_endian(tail);
        }
        let score: u16 = signed_to_unsigned(entry.score);
        data[26] = (score / 256) as u8;
        data[27] = (score % 256) as u8;
        let pr: u16 = entry.ply | (signed_to_unsigned(entry.result) << 14);
        data[28] = (pr / 256) as u8;
        data[29] = (pr % 256) as u8;
        let rule50: u16 = entry.pos.rule50_counter();
        data[30] = (rule50 / 256) as u8;
        data[31] = (rule50 % 256) as u8;
        let draw: u16 = signed_to_unsigned(entry.draw_score);
        data[32] = (draw / 256) as u8;
        data[33] = (draw % 256) as u8;
        assert(data@ =~= entry_bytes(entry@));
        PackedTrainingDataEntry { data }
    }

    fn read_u16_be(&self, offset: usize) -> (r: u16)
        requires
            offset < 33,
        ensures
            r == from_be16(self.data@, offset as int),
    {
        self.data[offset] as u16 * 256 + self.data[offset + 1] as u16
    }
}

} // verus!
