//! Reading of the entries of a chunk.
//!
//! A chunk is a sequence of chains. A chain is a stem of 34 bytes, the number of plies that follow
//! it in two bytes, and the text of those plies, filled up to whole bytes.
use vstd::prelude::*;

use crate::common::arithmetic::from_be16;
use crate::common::bits::{bits_of, bytes_for};
use crate::common::compressed_position::{ep_marks_inside, position_of_bytes};
use crate::common::entry::{entry_of_bytes, EntryModel, PackedTrainingDataEntry, TrainingDataEntry};
use crate::common::move_text::lemma_read_ply_end;
use crate::reader::move_score_list_reader::{MoveListModel, PackedMoveScoreListReader};

verus! {

/// A place among the entries of a chunk.
#[derive(Debug)]
pub struct ChunkReader {
    pub movelist_reader: Option<PackedMoveScoreListReader>,
    pub offset: usize,
    pub is_end: bool,
}

/// What a place in a chunk means: the plies that are being read, the byte at which they or the next
/// chain start, and whether no further chain was found.
#[verifier::ext_equal]
pub struct ChunkReaderModel {
    pub movelist: Option<MoveListModel>,
    pub offset: nat,
    pub is_end: bool,
}

impl View for ChunkReader {
    type V = ChunkReaderModel;

    open spec fn view(&self) -> ChunkReaderModel {
        ChunkReaderModel {
            movelist: match self.movelist_reader {
                Some(m) => Some(m@),
                None => None,
            },
            offset: self.offset as nat,
            is_end: self.is_end,
        }
    }
}

/// Whether a stem and the number of plies fit into `chunk` from byte `offset` on.
pub open spec fn stem_fits(chunk: Seq<u8>, offset: nat) -> bool {
    offset + 36 <= chunk.len()
}

impl ChunkReaderModel {
    /// The place before the first entry.
    pub open spec fn start() -> ChunkReaderModel {
        ChunkReaderModel { movelist: None, offset: 0, is_end: false }
    }

    /// Whether an entry is left: a ply of the chain that is being read, or another stem.
    pub open spec fn has_next(self, chunk: Seq<u8>) -> bool {
        ||| self.movelist is Some && self.movelist->0.has_next()
        ||| !self.is_end && stem_fits(chunk, self.offset)
    }

    /// The place at byte `offset`, between two chains.
    pub open spec fn between(self, chunk: Seq<u8>, offset: nat) -> ChunkReaderModel {
        ChunkReaderModel {
            movelist: None,
            offset,
            is_end: self.is_end || !stem_fits(chunk, offset),
        }
    }

    /// The stem at this place, and the place behind it and its number of plies.
    pub open spec fn next_stem(self, chunk: Seq<u8>) -> Option<(EntryModel, ChunkReaderModel)> {
        let data = chunk.subrange(self.offset as int, self.offset as int + 34);
        if !stem_fits(chunk, self.offset) || !ep_marks_inside(position_of_bytes(data)) {
            None
        } else {
            let entry = entry_of_bytes(data);
            let num_plies = from_be16(chunk, self.offset as int + 34);
            Some(
                (
                    entry,
                    if num_plies > 0 {
                        ChunkReaderModel {
                            movelist: Some(MoveListModel::start(entry, num_plies)),
                            offset: self.offset + 36,
                            is_end: self.is_end,
                        }
                    } else {
                        self.between(chunk, self.offset + 36)
                    },
                ),
            )
        }
    }

    /// The entry of the next ply, and the place behind it.
    pub open spec fn next_ply(self, chunk: Seq<u8>) -> Option<(EntryModel, ChunkReaderModel)> {
        if self.offset > chunk.len() {
            None
        } else {
            match self.movelist->0.next(bits_of(chunk.skip(self.offset as int))) {
                None => None,
                Some((entry, list)) => Some(
                    (
                        entry,
                        if list.has_next() {
                            ChunkReaderModel { movelist: Some(list), ..self }
                        } else {
                            self.between(chunk, self.offset + bytes_for(list.pos))
                        },
                    ),
                ),
            }
        }
    }

    /// The next entry, and the place behind it. There is none if the chunk ends before it or holds
    /// something else.
    pub open spec fn next(self, chunk: Seq<u8>) -> Option<(EntryModel, ChunkReaderModel)> {
        match self.movelist {
            Some(_) => self.next_ply(chunk),
            None => self.next_stem(chunk),
        }
    }

    /// How many plies of the chain that is being read are left.
    pub open spec fn plies_left(self) -> int {
        match self.movelist {
            Some(m) => m.num_plies - m.num_read,
            None => 0,
        }
    }

    /// How many bytes of `chunk` are left.
    pub open spec fn bytes_left(self, chunk: Seq<u8>) -> int {
        if self.offset <= chunk.len() {
            chunk.len() - self.offset
        } else {
            0
        }
    }

    /// The entries of `chunk` from this place on. There are none if the chunk holds something else.
    pub open spec fn rest(self, chunk: Seq<u8>) -> Option<Seq<EntryModel>>
        decreases self.bytes_left(chunk), self.plies_left(),
    {
        if !self.has_next(chunk) {
            Some(Seq::empty())
        } else {
            match self.next(chunk) {
                None => None,
                Some((entry, place)) => {
                    match place.rest(chunk) {
                        None => None,
                        Some(entries) => Some(seq![entry] + entries),
                    }
                },
            }
        }
    }
}

/// The entries of `chunk`. There are none if the chunk holds something else.
pub open spec fn entries_of_chunk(chunk: Seq<u8>) -> Option<Seq<EntryModel>> {
    ChunkReaderModel::start().rest(chunk)
}

/// What a sequence of entries means.
pub open spec fn models(entries: Seq<TrainingDataEntry>) -> Seq<EntryModel> {
    entries.map_values(|e: TrainingDataEntry| e@)
}

impl Default for ChunkReader {
    /// The place before the first entry.
    fn default() -> (r: ChunkReader)
        ensures
            r.wf(),
            r@ == ChunkReaderModel::start(),
    {
        ChunkReader { movelist_reader: None, offset: 0, is_end: false }
    }
}

impl ChunkReader {
    /// Whether the reader of the plies, if there is one, is well formed.
    pub open spec fn wf(&self) -> bool {
        self.movelist_reader is Some ==> self.movelist_reader->0.wf()
    }

    /// The same place.
    pub fn copy(&self) -> (r: ChunkReader)
        ensures
            r == *self,
    {
        ChunkReader {
            movelist_reader: self.movelist_reader,
            offset: self.offset,
            is_end: self.is_end,
        }
    }

    fn stem_fits(&self, chunk: &[u8]) -> (r: bool)
        ensures
            r == stem_fits(chunk@, self@.offset),
    {
        chunk.len() >= 36 && self.offset <= chunk.len() - 36
    }

    /// Whether another entry can be read from this chunk.
    pub fn has_next(&self, chunk: &[u8]) -> (r: bool)
        ensures
            r == self@.has_next(chunk@),
    {
        if let Some(reader) = &self.movelist_reader {
            if reader.has_next() {
                return true;
            }
        }
        !self.is_end && self.stem_fits(chunk)
    }

    /// Whether the next entry is a ply of the chain that is being read.
    pub fn in_chain(&self) -> (r: bool)
        ensures
            r == (self@.movelist is Some && self@.movelist->0.has_next()),
    {
        match &self.movelist_reader {
            Some(reader) => reader.has_next(),
            None => false,
        }
    }

    fn finish_if_at_end(&mut self, chunk: &[u8])
        ensures
            final(self)@ == (ChunkReaderModel {
                is_end: old(self)@.is_end || !stem_fits(chunk@, old(self)@.offset),
                ..old(self)@
            }),
            final(self).movelist_reader == old(self).movelist_reader,
    {
        if !self.stem_fits(chunk) {
            self.is_end = true;
        }
    }

    fn read_entry(&mut self, chunk: &[u8]) -> (r: Option<TrainingDataEntry>)
        requires
            stem_fits(chunk@, old(self)@.offset),
        ensures
            ({
                let o = old(self)@.offset as int;
                let data = chunk@.subrange(o, o + 34);
                if ep_marks_inside(position_of_bytes(data)) {
                    &&& r is Some
                    &&& r->0@ == entry_of_bytes(data)
                    &&& final(self)@ == (ChunkReaderModel {
                        offset: old(self)@.offset + 34,
                        ..old(self)@
                    })
                    &&& final(self).movelist_reader == old(self).movelist_reader
                } else {
                    &&& r is None
                    &&& *final(self) == *old(self)
                }
            }),
    {
        let size: usize = PackedTrainingDataEntry::byte_size();
        assert(self.offset + size <= chunk.len());
        let packed = PackedTrainingDataEntry::from_slice(&chunk[self.offset..self.offset + size]);
        if !packed.can_unpack() {
            return None;
        }
        self.offset = self.offset + size;
        Some(packed.unpack_entry())
    }

    fn read_plies(&mut self, chunk: &[u8]) -> (r: u16)
        requires
            old(self)@.offset + 2 <= chunk@.len(),
        ensures
            r == from_be16(chunk@, old(self)@.offset as int),
            final(self)@ == (ChunkReaderModel { offset: old(self)@.offset + 2, ..old(self)@ }),
            final(self).movelist_reader == old(self).movelist_reader,
    {
        let plies: u16 = chunk[self.offset] as u16 * 256 + chunk[self.offset + 1] as u16;
        self.offset = self.offset + 2;
        plies
    }

    /// Reads the next entry from this chunk. There is none if the chunk ends before it or holds
    /// something else; the reader then stays where it is.
    pub fn try_next(&mut self, chunk: &[u8]) -> (r: Option<TrainingDataEntry>)
        requires
            old(self).wf(),
        ensures
            final(self).wf(),
            match old(self)@.next(chunk@) {
                Some((e, place)) => r is Some && r->0@ == e && final(self)@ == place,
                None => r is None && *final(self) == *old(self),
            },
    {
        if let Some(list) = self.movelist_reader {
            let mut list = list;
            if self.offset > chunk.len() {
                return None;
            }
            let movetext = &chunk[self.offset..chunk.len()];
            assert(movetext@ =~= chunk@.skip(self.offset as int));
            let entry = match list.try_next_entry(movetext) {
                Some(entry) => entry,
                None => {
                    return None;
                },
            };
            proof {
                let m = old(self)@.movelist->0;
                let pos = m.entry.pos.after_move(m.entry.mv);
                lemma_read_ply_end(
                    pos,
                    bits_of(movetext@),
                    m.pos as int,
                    m.last_score,
                    m.last_draw,
                );
                assert(list@.pos <= 8 * movetext@.len());
            }
            if list.has_next() {
                self.movelist_reader = Some(list);
            } else {
                self.offset = self.offset + list.num_read_bytes();
                self.movelist_reader = None;
                self.finish_if_at_end(chunk);
            }
            return Some(entry);
        }
        if !self.stem_fits(chunk) {
            return None;
        }
        let entry = match self.read_entry(chunk) {
            Some(entry) => entry,
            None => {
                return None;
            },
        };
        let num_plies: u16 = self.read_plies(chunk);
        if num_plies > 0 {
            self.movelist_reader = Some(PackedMoveScoreListReader::new(entry, num_plies));
        } else {
            self.finish_if_at_end(chunk);
        }
        Some(entry)
    }

    /// Reads the next entry from this chunk.
    pub fn next(&mut self, chunk: &[u8]) -> (r: TrainingDataEntry)
        requires
            old(self).wf(),
            old(self)@.next(chunk@) is Some,
        ensures
            final(self).wf(),
            (r@, final(self)@) == old(self)@.next(chunk@)->0,
    {
        self.try_next(chunk).unwrap()
    }
}

/// Reads all entries of `chunk`. There are none if the chunk holds something else.
pub fn try_parse_chunk(chunk: &[u8]) -> (r: Option<Vec<TrainingDataEntry>>)
    ensures
        match entries_of_chunk(chunk@) {
            Some(entries) => r is Some && models(r->0@) == entries,
            None => r is None,
        },
{
    let mut reader = ChunkReader::default();
    let mut entries: Vec<TrainingDataEntry> = Vec::new();
    while reader.has_next(chunk)
        invariant
            reader.wf(),
            match reader@.rest(chunk@) {
                Some(rest) => entries_of_chunk(chunk@) == Some(models(entries@) + rest),
                None => entries_of_chunk(chunk@) is None,
            },
        decreases reader@.bytes_left(chunk@), reader@.plies_left(),
    {
        let ghost before = entries@;
        match reader.try_next(chunk) {
            Some(entry) => {
                entries.push(entry);
                assert(models(entries@) =~= models(before).push(entry@));
                proof {
                    if let Some(rest) = reader@.rest(chunk@) {
                        assert(models(before) + (seq![entry@] + rest) =~= models(entries@) + rest);
                    }
                }
            },
            None => {
                return None;
            },
        }
    }
    assert(models(entries@) + Seq::<EntryModel>::empty() =~= models(entries@));
    Some(entries)
}

/// Reads all entries of `chunk`.
pub fn parse_chunk(chunk: &[u8]) -> (r: Vec<TrainingDataEntry>)
    requires
        entries_of_chunk(chunk@) is Some,
    ensures
        models(r@) == entries_of_chunk(chunk@)->0,
{
    try_parse_chunk(chunk).unwrap()
}

} // verus!
