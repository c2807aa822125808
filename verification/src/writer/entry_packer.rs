//! Packing of entries into chunks.
use vstd::prelude::*;

use crate::chess::chess_move::Move;
use crate::chess::position::{empty_position, Position};
use crate::common::chain::{list_bytes, ply_of};
use crate::common::compressed_training_file_writer::append_bytes;
use crate::common::entry::{
    entry_bytes, lemma_entry_bytes_len, packable_entry, EntryModel, PackedTrainingDataEntry,
    TrainingDataEntry,
};
use crate::common::move_numbers::{is_pseudo_legal, pseudo_legal};
use crate::writer::move_score_list::{PackedMoveScoreList, PlyListModel};

verus! {

/// A chunk is ended by the first chain that makes it this large.
pub const SUGGESTED_CHUNK_SIZE: usize = 1024 * 1024;

/// The room that is left for the plies of the chain that ends a chunk.
pub const MAX_MOVELIST_SIZE: usize = 10 * 1024;

/// The bytes of the current chunk, and the chain that is being written.
#[derive(Debug)]
pub struct EntryPacker {
    pub last_entry: TrainingDataEntry,
    pub movelist: PackedMoveScoreList,
    pub packed_entries: Vec<u8>,
    pub is_first: bool,
}

/// What a packer means: the entry that was written last, the plies of the current chain, the bytes
/// of the current chunk up to the stem of that chain, and whether nothing has been written yet.
#[verifier::ext_equal]
pub struct PackerModel {
    pub last: EntryModel,
    pub list: PlyListModel,
    pub packed: Seq<u8>,
    pub is_first: bool,
}

impl View for EntryPacker {
    type V = PackerModel;

    open spec fn view(&self) -> PackerModel {
        PackerModel {
            last: self.last_entry@,
            list: self.movelist@,
            packed: self.packed_entries@,
            is_first: self.is_first,
        }
    }
}

/// An entry that no entry continues.
pub open spec fn never_continued() -> EntryModel {
    EntryModel {
        pos: empty_position(),
        mv: Move::spec_null(),
        score: 0,
        ply: 0xFFFF,
        result: 0x7FFF,
        draw_score: 0,
    }
}

impl PackerModel {
    /// The packer before the first entry.
    pub open spec fn start() -> PackerModel {
        PackerModel {
            last: never_continued(),
            list: PlyListModel {
                num_plies: 0,
                bits: Seq::empty(),
                last_score: 0,
                last_draw: 0,
            },
            packed: Seq::empty(),
            is_first: true,
        }
    }

    /// The packer after `e` as a further ply of the current chain.
    pub open spec fn with_ply(self, e: EntryModel) -> PackerModel {
        PackerModel { last: e, list: self.list.with_ply(e.pos, ply_of(e)), ..self }
    }

    /// The packer with the plies of the current chain, if there is one, in the chunk.
    pub open spec fn closed(self) -> PackerModel {
        if self.is_first {
            self
        } else {
            PackerModel { packed: self.packed + list_bytes(self.list), ..self }
        }
    }

    /// Whether the chunk is to be ended.
    pub open spec fn full(self) -> bool {
        self.packed.len() >= SUGGESTED_CHUNK_SIZE
    }

    /// Whether there is room for the plies of the current chain.
    pub open spec fn has_room(self) -> bool {
        self.closed().packed.len() <= SUGGESTED_CHUNK_SIZE + MAX_MOVELIST_SIZE
    }

    /// The packer with an empty chunk.
    pub open spec fn emptied(self) -> PackerModel {
        PackerModel { packed: Seq::empty(), ..self }
    }

    /// The packer after `e` as the stem of a new chain.
    pub open spec fn with_stem(self, e: EntryModel) -> PackerModel {
        PackerModel {
            last: e,
            list: PlyListModel::start(e),
            packed: self.packed + entry_bytes(e),
            is_first: false,
        }
    }

    /// Whether the chunk is to be ended before `e`: it does not continue the last entry, and the
    /// chunk is large enough once the current chain is in it.
    pub open spec fn ends_chunk(self, e: EntryModel) -> bool {
        !self.last.is_continued_by(e) && self.closed().full()
    }

    /// The packer after `e`. If the chunk is to be ended before `e`, the packer with the whole chunk
    /// instead, and `e` still to be added.
    pub open spec fn begun(self, e: EntryModel) -> PackerModel {
        if self.last.is_continued_by(e) {
            self.with_ply(e)
        } else if self.closed().full() {
            self.closed()
        } else {
            self.closed().with_stem(e)
        }
    }

    /// Whether `e` can be written next: it continues the last entry with a move that has a number,
    /// and the chain has room for one more; or it has a stored form, and the chunk has room for the
    /// plies of the current chain.
    pub open spec fn accepts(self, e: EntryModel) -> bool {
        &&& self.last.comparable(e)
        &&& if self.last.is_continued_by(e) {
            self.list.num_plies < u16::MAX && pseudo_legal(e.pos, e.mv)
        } else {
            packable_entry(e) && self.has_room()
        }
    }
}

impl Default for EntryPacker {
    /// The packer before the first entry.
    fn default() -> (r: EntryPacker)
        ensures
            r.wf(),
            r@ == PackerModel::start(),
    {
        EntryPacker {
            last_entry: TrainingDataEntry {
                pos: Position::default(),
                mv: Move::default(),
                score: 0,
                ply: 0xFFFF,
                result: 0x7FFF,
                draw_score: 0,
            },
            movelist: PackedMoveScoreList::new(),
            packed_entries: Vec::new(),
            is_first: true,
        }
    }
}

impl EntryPacker {
    /// Whether the list of plies is well formed, the chunk is not larger than there is room for, and
    /// the chunk is empty exactly before the first entry.
    pub open spec fn wf(&self) -> bool {
        &&& self.movelist.wf()
        &&& self@.packed.len() <= SUGGESTED_CHUNK_SIZE + MAX_MOVELIST_SIZE
        &&& self.is_first == (self@.packed.len() == 0)
        &&& self.is_first ==> self@ == PackerModel::start()
    }

    /// Whether `entry` continues the last entry.
    pub fn continues(&self, entry: &TrainingDataEntry) -> (r: bool)
        requires
            self@.last.comparable(entry@),
        ensures
            r == self@.last.is_continued_by(entry@),
    {
        self.last_entry.is_continuation(entry)
    }

    /// Whether there is room for the plies of the current chain.
    pub fn has_room(&self) -> (r: bool)
        requires
            self.wf(),
        ensures
            r == self@.has_room(),
    {
        self.is_first || self.movelist.movetext().len() + 2 <= SUGGESTED_CHUNK_SIZE
            + MAX_MOVELIST_SIZE - self.packed_entries.len()
    }

    /// Whether `entry` can be written next.
    pub fn accepts(&self, entry: &TrainingDataEntry) -> (r: bool)
        requires
            self.wf(),
        ensures
            r == self@.accepts(entry@),
    {
        let last = self.last_entry;
        if entry.result == i16::MIN || (last.result == -entry.result && last.ply == u16::MAX) {
            return false;
        }
        if self.continues(entry) {
            self.movelist.num_plies < u16::MAX && is_pseudo_legal(&entry.pos, entry.mv)
        } else {
            PackedTrainingDataEntry::can_pack(entry) && self.has_room()
        }
    }

    /// Writes `entry`, unless the chunk is to be ended before it. Returns whether that is so: the
    /// chunk is then whole, and `begin_chunk` adds the entry once the chunk has been put away.
    pub fn begin(&mut self, entry: &TrainingDataEntry) -> (r: bool)
        requires
            old(self).wf(),
            old(self)@.accepts(entry@),
        ensures
            final(self).wf(),
            r == old(self)@.ends_chunk(entry@),
            final(self)@ == old(self)@.begun(entry@),
    {
        if self.continues(entry) {
            self.add_continuation(entry);
            return false;
        }
        self.write_movelist();
        if self.packed_entries.len() >= SUGGESTED_CHUNK_SIZE {
            return true;
        }
        self.add_stem(entry);
        false
    }

    /// Begins a new chunk with `entry`.
    pub fn begin_chunk(&mut self, entry: &TrainingDataEntry)
        requires
            old(self).wf(),
            packable_entry(entry@),
        ensures
            final(self).wf(),
            final(self)@ == old(self)@.emptied().with_stem(entry@),
    {
        self.packed_entries.clear();
        self.add_stem(entry);
    }

    /// Ends the chunk, if it is not empty. Returns whether that is so: the chunk is then whole, and
    /// `reset` is to be called once it has been put away.
    pub fn end(&mut self) -> (r: bool)
        requires
            old(self).wf(),
            old(self)@.packed.len() > 0 ==> old(self)@.has_room(),
        ensures
            final(self).wf(),
            r == (old(self)@.packed.len() > 0),
            final(self)@ == old(self)@.closed(),
    {
        if self.is_first {
            return false;
        }
        self.write_movelist();
        true
    }

    /// Goes back to before the first entry, so that no entry continues the last one.
    pub fn reset(&mut self)
        ensures
            final(self).wf(),
            final(self)@ == PackerModel::start(),
    {
        *self = EntryPacker::default();
    }

    fn add_continuation(&mut self, entry: &TrainingDataEntry)
        requires
            old(self).wf(),
            !old(self)@.is_first,
            old(self)@.list.num_plies < u16::MAX,
            pseudo_legal(entry@.pos, entry@.mv),
        ensures
            final(self).wf(),
            final(self)@ == old(self)@.with_ply(entry@),
    {
        self.movelist.add_move_score(&entry.pos, entry.mv, entry.score, entry.draw_score);
        self.last_entry = *entry;
    }

    fn write_movelist(&mut self)
        requires
            old(self).wf(),
            old(self)@.has_room(),
        ensures
            final(self).wf(),
            final(self)@ == old(self)@.closed(),
    {
        if self.is_first {
            return;
        }
        let num_plies: u16 = self.movelist.num_plies;
        self.packed_entries.push((num_plies / 256) as u8);
        self.packed_entries.push((num_plies % 256) as u8);
        append_bytes(&mut self.packed_entries, self.movelist.movetext().as_slice());
        assert(self@.packed =~= old(self)@.closed().packed);
    }

    fn add_stem(&mut self, entry: &TrainingDataEntry)
        requires
            !old(self)@.full(),
            packable_entry(entry@),
        ensures
            final(self).wf(),
            final(self)@ == old(self)@.with_stem(entry@),
    {
        let packed = PackedTrainingDataEntry::from_entry(entry);
        append_bytes(&mut self.packed_entries, &packed.data);
        self.movelist.clear(entry);
        self.is_first = false;
        self.last_entry = *entry;
        proof {
            lemma_entry_bytes_len(entry@);
        }
    }

    /// Whether the chunk is to be ended once the plies of the current chain are in it.
    pub fn is_full_when_closed(&self) -> (r: bool)
        requires
            self.wf(),
        ensures
            r == self@.closed().full(),
    {
        !self.is_first && self.packed_entries.len() + 2 + self.movelist.movetext().len()
            >= SUGGESTED_CHUNK_SIZE
    }

    /// Whether the chunk is empty.
    pub fn is_empty(&self) -> (r: bool)
        ensures
            r == (self@.packed.len() == 0),
    {
        self.packed_entries.len() == 0
    }

    /// The bytes of the chunk.
    pub fn packed(&self) -> (r: &[u8])
        ensures
            r@ == self@.packed,
    {
        self.packed_entries.as_slice()
    }
}

} // verus!
