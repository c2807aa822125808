//! A place among the entries of a sequence of chunks that are handed in one by one.
use vstd::prelude::*;

use crate::common::entry::{EntryModel, TrainingDataEntry};
use crate::reader::chunk_reader::{ChunkReader, ChunkReaderModel};

verus! {

/// What a stream knows of the entries that are left.
#[derive(Debug, Clone, Copy, PartialEq, Eq, Structural)]
pub enum Phase {
    /// There is a further entry, in the current chunk or in one behind it.
    Reading,
    /// The current chunk is at its end, and the next one is to be loaded.
    Loading,
    /// The next entry is wanted, and chunks are to be loaded until one holds it.
    Skipping,
    /// The current chunk holds no entry, and the chunks behind it are to be looked at.
    Looking,
    /// There is no further entry.
    Ended,
}

/// What a stream needs to be handed next.
#[derive(Debug, Clone, Copy, PartialEq, Eq, Structural)]
pub enum Action {
    /// Nothing.
    Nothing,
    /// The next chunk, or that there is none.
    Load,
    /// The size of the first chunk that has not been looked at, without loading it, or that there
    /// is none.
    Look,
}

/// A place among the entries of a sequence of chunks, of which the current one is at hand.
#[derive(Debug)]
pub struct EntryStream {
    pub chunk: Vec<u8>,
    pub chunk_reader: ChunkReader,
    pub phase: Phase,
}

/// What a stream means: the current chunk, the place in it, and what is known of the entries that
/// are left.
#[verifier::ext_equal]
pub struct StreamModel {
    pub chunk: Seq<u8>,
    pub place: ChunkReaderModel,
    pub phase: Phase,
}

impl View for EntryStream {
    type V = StreamModel;

    open spec fn view(&self) -> StreamModel {
        StreamModel { chunk: self.chunk@, place: self.chunk_reader@, phase: self.phase }
    }
}

/// Whether a chunk of `size` bytes is large enough to hold an entry.
pub open spec fn holds_entry(size: nat) -> bool {
    size >= 36
}

impl StreamModel {
    /// The stream before the first chunk.
    pub open spec fn start() -> StreamModel {
        StreamModel {
            chunk: Seq::empty(),
            place: ChunkReaderModel::start(),
            phase: Phase::Loading,
        }
    }

    /// Whether the current chunk holds a further entry.
    pub open spec fn at_hand(self) -> bool {
        self.place.has_next(self.chunk)
    }

    /// Whether the next entry belongs to the chain of the last one.
    pub open spec fn in_chain(self) -> bool {
        self.place.movelist is Some && self.place.movelist->0.has_next()
    }

    /// The next entry of the current chunk, and the stream behind it.
    pub open spec fn next(self) -> Option<(EntryModel, StreamModel)> {
        match self.place.next(self.chunk) {
            None => None,
            Some((e, place)) => Some(
                (
                    e,
                    StreamModel {
                        place,
                        phase: if place.has_next(self.chunk) {
                            Phase::Reading
                        } else {
                            Phase::Loading
                        },
                        ..self
                    },
                ),
            ),
        }
    }

    /// The stream that is to bring the next entry to hand.
    pub open spec fn sought(self) -> StreamModel {
        StreamModel {
            phase: if self.at_hand() {
                Phase::Reading
            } else {
                Phase::Skipping
            },
            ..self
        }
    }

    /// The stream with its next chunk. If that holds no entry, further ones are loaded if an entry
    /// is wanted, and looked at otherwise.
    pub open spec fn loaded(self, chunk: Seq<u8>) -> StreamModel {
        StreamModel {
            chunk,
            place: ChunkReaderModel::start(),
            phase: if holds_entry(chunk.len()) {
                Phase::Reading
            } else if self.phase is Skipping {
                Phase::Skipping
            } else {
                Phase::Looking
            },
        }
    }

    /// The stream after a chunk of `size` bytes has been seen behind the current one.
    pub open spec fn looked(self, size: nat) -> StreamModel {
        if holds_entry(size) {
            self.in_phase(Phase::Reading)
        } else {
            self
        }
    }

    /// The stream after the chunk behind the current one has been passed over. What was known of
    /// the chunks behind the current one has to be looked up again.
    pub open spec fn passed(self) -> StreamModel {
        if self.phase is Reading && !self.at_hand() {
            self.in_phase(Phase::Looking)
        } else {
            self
        }
    }

    /// The stream in the given phase.
    pub open spec fn in_phase(self, phase: Phase) -> StreamModel {
        StreamModel { phase, ..self }
    }

    /// What the stream needs to be handed next.
    pub open spec fn action(self) -> Action {
        match self.phase {
            Phase::Loading | Phase::Skipping => Action::Load,
            Phase::Looking => Action::Look,
            Phase::Reading | Phase::Ended => Action::Nothing,
        }
    }
}

impl Default for EntryStream {
    /// The stream before the first chunk.
    fn default() -> (r: EntryStream)
        ensures
            r.wf(),
            r@ == StreamModel::start(),
    {
        EntryStream {
            chunk: Vec::new(),
            chunk_reader: ChunkReader::default(),
            phase: Phase::Loading,
        }
    }
}

impl EntryStream {
    /// Whether the place in the current chunk is well formed.
    pub open spec fn wf(&self) -> bool {
        self.chunk_reader.wf()
    }

    /// What the stream needs to be handed next.
    pub fn action(&self) -> (r: Action)
        ensures
            r == self@.action(),
    {
        match self.phase {
            Phase::Loading | Phase::Skipping => Action::Load,
            Phase::Looking => Action::Look,
            Phase::Reading | Phase::Ended => Action::Nothing,
        }
    }

    /// Whether entries are left, as far as the stream knows.
    pub fn has_next(&self) -> (r: bool)
        ensures
            r == !(self@.phase is Ended),
    {
        self.phase != Phase::Ended
    }

    /// Whether the current chunk holds a further entry.
    pub fn at_hand(&self) -> (r: bool)
        ensures
            r == self@.at_hand(),
    {
        self.chunk_reader.has_next(self.chunk.as_slice())
    }

    /// Whether the next entry belongs to the chain of the last one.
    pub fn is_next_entry_continuation(&self) -> (r: bool)
        ensures
            r == self@.in_chain(),
    {
        self.chunk_reader.in_chain()
    }

    /// Reads the next entry of the current chunk. There is none if the chunk ends before it or holds
    /// something else; the stream then stays as it is.
    pub fn try_next(&mut self) -> (r: Option<TrainingDataEntry>)
        requires
            old(self).wf(),
        ensures
            final(self).wf(),
            match old(self)@.next() {
                Some((e, s)) => r is Some && r->0@ == e && final(self)@ == s,
                None => r is None && *final(self) == *old(self),
            },
    {
        let entry = match self.chunk_reader.try_next(self.chunk.as_slice()) {
            Some(entry) => entry,
            None => {
                return None;
            },
        };
        self.phase = if self.at_hand() {
            Phase::Reading
        } else {
            Phase::Loading
        };
        Some(entry)
    }

    /// Asks for chunks until the next entry is at hand.
    pub fn seek(&mut self)
        ensures
            final(self)@ == old(self)@.sought(),
            final(self).wf() == old(self).wf(),
    {
        self.phase = if self.at_hand() {
            Phase::Reading
        } else {
            Phase::Skipping
        };
    }

    /// Goes on with the next chunk.
    pub fn load(&mut self, chunk: Vec<u8>)
        ensures
            final(self).wf(),
            final(self)@ == old(self)@.loaded(chunk@),
    {
        self.phase = if chunk.len() >= 36 {
            Phase::Reading
        } else if self.phase == Phase::Skipping {
            Phase::Skipping
        } else {
            Phase::Looking
        };
        self.chunk = chunk;
        self.chunk_reader = ChunkReader::default();
    }

    /// Notes the size of a chunk behind the current one.
    pub fn look(&mut self, size: u32)
        ensures
            final(self)@ == old(self)@.looked(size as nat),
            final(self).wf() == old(self).wf(),
    {
        if size >= 36 {
            self.phase = Phase::Reading;
        }
    }

    /// Notes that what stands behind the current chunk cannot be looked at. The next entry is then
    /// where that shows.
    pub fn look_failed(&mut self)
        ensures
            final(self)@ == old(self)@.in_phase(Phase::Reading),
            final(self).wf() == old(self).wf(),
    {
        self.phase = Phase::Reading;
    }

    /// Notes that the chunk behind the current one has been passed over.
    pub fn pass(&mut self)
        ensures
            final(self)@ == old(self)@.passed(),
            final(self).wf() == old(self).wf(),
    {
        if self.phase == Phase::Reading && !self.at_hand() {
            self.phase = Phase::Looking;
        }
    }

    /// Notes that no entry is left.
    pub fn finish(&mut self)
        ensures
            final(self)@ == old(self)@.in_phase(Phase::Ended),
            final(self).wf() == old(self).wf(),
    {
        self.phase = Phase::Ended;
    }
}

} // verus!
