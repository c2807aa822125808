//! Reading of the entries of a binpack file.
//!
//! A file is a sequence of chunks in their frames, and each chunk is a sequence of chains.
use vstd::prelude::*;

use crate::common::binpack_error::{BinpackError, IoError};
use crate::common::compressed_training_file_reader::{
    CompressedTrainingDataFileReader, Cursor, FileModel,
};
use crate::common::compressed_training_file_writer::append_bytes;
use crate::common::entry::{EntryModel, TrainingDataEntry};
use crate::common::frame::next_frame;
use crate::reader::chunk_reader::{entries_of_chunk, models, parse_chunk, ChunkReaderModel};
use crate::reader::entry_stream::{holds_entry, Action, EntryStream, Phase};

verus! {

/// What can go wrong when a binpack is read.
#[derive(Debug)]
pub enum CompressedReaderError {
    Io(IoError),
    InvalidFormat(String),
    EndOfFile,
    BinpackError(BinpackError),
}

/// Reads the chunk at the place of `file` into `buffer`, which then holds nothing else. Returns
/// whether there was one; at the end of the file there is none. No state is kept besides the place,
/// so this can be called again as long as the place is that of the next chunk.
pub fn read_chunk_into(file: &mut Cursor, buffer: &mut Vec<u8>) -> (r: Result<
    bool,
    CompressedReaderError,
>)
    ensures
        final(file).data == old(file).data,
        match next_frame(old(file).data@, old(file).pos as nat) {
            Ok(Some(chunk)) => {
                &&& r == Ok::<bool, CompressedReaderError>(true)
                &&& final(buffer)@ == chunk
                &&& final(file).pos == old(file).pos + 8 + chunk.len()
            },
            Ok(None) => {
                &&& r == Ok::<bool, CompressedReaderError>(false)
                &&& *final(buffer) == *old(buffer)
                &&& final(file).pos == old(file).pos
            },
            Err(e) => {
                &&& r == Err::<bool, CompressedReaderError>(CompressedReaderError::BinpackError(e))
                &&& *final(buffer) == *old(buffer)
                &&& final(file).pos == old(file).pos
            },
        },
{
    match file.read_chunk(buffer) {
        Ok(found) => Ok(found),
        Err(e) => Err(CompressedReaderError::BinpackError(e)),
    }
}

/// Whether a chunk of the file `data` from `pos` on can hold an entry, or cannot be read.
pub open spec fn entry_ahead(data: Seq<u8>, pos: nat) -> bool
    decreases data.len() - pos,
{
    match next_frame(data, pos) {
        Err(_) => true,
        Ok(None) => false,
        Ok(Some(chunk)) => holds_entry(chunk.len()) || entry_ahead(data, pos + 8 + chunk.len()),
    }
}

/// Reads binpacks and returns a `TrainingDataEntry` for each encoded entry.
#[derive(Debug)]
pub struct CompressedTrainingDataEntryReader {
    pub stream: EntryStream,
    pub input_file: Option<CompressedTrainingDataFileReader>,
}

/// What a reader of entries means: the current chunk, the place in it, and the file with the further
/// chunks, if it has not been taken out.
#[verifier::ext_equal]
pub struct ReaderModel {
    pub chunk: Seq<u8>,
    pub place: ChunkReaderModel,
    pub file: Option<FileModel>,
}

impl View for CompressedTrainingDataEntryReader {
    type V = ReaderModel;

    open spec fn view(&self) -> ReaderModel {
        ReaderModel {
            chunk: self.stream.chunk@,
            place: self.stream.chunk_reader@,
            file: match self.input_file {
                Some(f) => Some(f@),
                None => None,
            },
        }
    }
}

impl ReaderModel {
    /// The reader of the entries of `file`, from its place on: it has read the first chunk. There is
    /// none if the file is at its end or if the first chunk cannot be read.
    pub open spec fn open(file: FileModel) -> Result<ReaderModel, CompressedReaderError> {
        match file.next_chunk() {
            Err(e) => Err(CompressedReaderError::BinpackError(e)),
            Ok(None) => Err(CompressedReaderError::EndOfFile),
            Ok(Some(chunk)) => Ok(
                ReaderModel {
                    chunk,
                    place: ChunkReaderModel::start(),
                    file: Some(file.behind(chunk.len())),
                },
            ),
        }
    }

    /// Whether the current chunk holds a further entry.
    pub open spec fn at_hand(self) -> bool {
        self.place.has_next(self.chunk)
    }

    /// Whether entries are left: the current chunk holds one, or one behind it can.
    pub open spec fn has_next(self) -> bool {
        self.at_hand() || (self.file is Some && entry_ahead(self.file->0.data, self.file->0.pos))
    }

    /// Whether the next entry belongs to the chain of the last one.
    pub open spec fn in_chain(self) -> bool {
        self.place.movelist is Some && self.place.movelist->0.has_next()
    }

    /// The reader with the next chunk of its file.
    pub open spec fn loaded(self, chunk: Seq<u8>) -> ReaderModel {
        ReaderModel {
            chunk,
            place: ChunkReaderModel::start(),
            file: Some(self.file->0.behind(chunk.len())),
        }
    }

    /// The reader with an entry at hand: chunks that hold none are passed over. There is no such
    /// reader if the file holds no further entry, or if a chunk cannot be read.
    pub open spec fn ready(self) -> Option<ReaderModel>
        decreases self.file_left(),
    {
        if self.at_hand() {
            Some(self)
        } else if self.file is None {
            None
        } else {
            match self.file->0.next_chunk() {
                Ok(Some(chunk)) => self.loaded(chunk).ready(),
                _ => None,
            }
        }
    }

    /// The reader with the next chunk of its file, if there is one and no entry is at hand. There is
    /// no such reader if the chunk cannot be read.
    pub open spec fn fetched(self) -> Option<ReaderModel> {
        if self.at_hand() {
            Some(self)
        } else if self.file is None {
            None
        } else {
            match self.file->0.next_chunk() {
                Err(_) => None,
                Ok(None) => Some(self),
                Ok(Some(chunk)) => Some(self.loaded(chunk)),
            }
        }
    }

    /// The next entry of the current chunk, and the reader behind it, which has the next chunk if it
    /// needs one.
    pub open spec fn taken(self) -> Option<(EntryModel, ReaderModel)> {
        match self.place.next(self.chunk) {
            None => None,
            Some((e, place)) => match (ReaderModel { place, ..self }).fetched() {
                None => None,
                Some(r) => Some((e, r)),
            },
        }
    }

    /// The next entry, and the reader behind it. There is none if no entry is left, if a chunk holds
    /// something else, or if a chunk is needed before or behind the entry and cannot be read.
    pub open spec fn next(self) -> Option<(EntryModel, ReaderModel)> {
        match self.ready() {
            None => None,
            Some(r) => r.taken(),
        }
    }

    /// How many bytes of the file are left.
    pub open spec fn file_left(self) -> int {
        match self.file {
            Some(f) => f.bytes_left(),
            None => 0,
        }
    }

    /// The entries from here on. There are none if the file holds something else.
    pub open spec fn rest(self) -> Option<Seq<EntryModel>>
        decreases
                self.file_left(),
                self.place.bytes_left(self.chunk),
                self.place.plies_left(),
    {
        if !self.has_next() {
            Some(Seq::empty())
        } else {
            proof {
                lemma_ready(self);
            }
            match self.next() {
                None => None,
                Some((e, r)) => match r.rest() {
                    None => None,
                    Some(entries) => Some(seq![e] + entries),
                },
            }
        }
    }
}

/// A reader that is ready has an entry at hand. If it was not ready before, less of its file is left.
pub proof fn lemma_ready(r: ReaderModel)
    ensures
        r.ready() matches Some(q) ==> {
            &&& q.at_hand()
            &&& q == r || 0 <= q.file_left() < r.file_left()
        },
    decreases r.file_left(),
{
    if !r.at_hand() && r.file is Some {
        if let Ok(Some(chunk)) = r.file->0.next_chunk() {
            lemma_ready(r.loaded(chunk));
        }
    }
}

impl CompressedTrainingDataEntryReader {
    /// Whether the place among the entries and the file are well formed.
    pub open spec fn parts_wf(&self) -> bool {
        &&& self.stream.wf()
        &&& self.input_file is Some ==> self.input_file->0.wf()
    }

    /// Whether the parts are well formed, and it is known whether entries are left.
    pub open spec fn wf(&self) -> bool {
        &&& self.parts_wf()
        &&& self.stream.phase == if self@.has_next() {
            Phase::Reading
        } else {
            Phase::Ended
        }
    }

    /// Reads the entries of `file` from its place on. It is an error if the file is at its end or if
    /// the first chunk cannot be read.
    pub fn new(file: Cursor) -> (r: Result<
        CompressedTrainingDataEntryReader,
        CompressedReaderError,
    >)
        ensures
            match ReaderModel::open(
                FileModel { data: file.data@, start: file.pos as nat, pos: file.pos as nat },
            ) {
                Ok(m) => r is Ok && r->Ok_0.wf() && r->Ok_0@ == m,
                Err(e) => r is Err && r->Err_0 == e,
            },
    {
        let mut reader = CompressedTrainingDataEntryReader {
            stream: EntryStream::default(),
            input_file: Some(CompressedTrainingDataFileReader::new(file)),
        };
        match reader.load_next_chunk() {
            Ok(true) => Ok(reader),
            Ok(false) => Err(CompressedReaderError::EndOfFile),
            Err(e) => Err(e),
        }
    }

    /// Reads the entries of a file that is given by its bytes.
    pub fn from_bytes(bytes: Vec<u8>) -> (r: Result<
        CompressedTrainingDataEntryReader,
        CompressedReaderError,
    >)
        ensures
            match ReaderModel::open(FileModel { data: bytes@, start: 0, pos: 0 }) {
                Ok(m) => r is Ok && r->Ok_0.wf() && r->Ok_0@ == m,
                Err(e) => r is Err && r->Err_0 == e,
            },
    {
        CompressedTrainingDataEntryReader::new(Cursor::new(bytes))
    }

    /// Reads the entries of a file that is given by a slice of its bytes.
    pub fn from_slice(bytes: &[u8]) -> (r: Result<
        CompressedTrainingDataEntryReader,
        CompressedReaderError,
    >)
        ensures
            match ReaderModel::open(FileModel { data: bytes@, start: 0, pos: 0 }) {
                Ok(m) => r is Ok && r->Ok_0.wf() && r->Ok_0@ == m,
                Err(e) => r is Err && r->Err_0 == e,
            },
    {
        let mut copy: Vec<u8> = Vec::new();
        append_bytes(&mut copy, bytes);
        assert(copy@ =~= bytes@);
        CompressedTrainingDataEntryReader::new(Cursor::new(copy))
    }

    /// Takes the file out, at the place that was reached. The reader keeps the chunk that it has
    /// read last.
    pub fn into_inner(&mut self) -> (r: Result<Cursor, IoError>)
        requires
            old(self).wf(),
            old(self)@.file is Some,
        ensures
            r is Ok,
            r->Ok_0 == old(self).input_file->0.file,
            final(self).wf(),
            final(self)@ == (ReaderModel { file: None, ..old(self)@ }),
    {
        let file = self.input_file.take().unwrap();
        if !self.stream.at_hand() {
            self.stream.finish();
        }
        Ok(file.into_inner())
    }

    /// How much of the file has been read so far.
    pub fn read_bytes(&self) -> (r: u64)
        requires
            self.wf(),
            self@.file is Some,
        ensures
            r == self@.file->0.pos - self@.file->0.start,
    {
        self.input_file.as_ref().unwrap().read_bytes()
    }

    /// Reads the next chunk of the file into `buffer`, which then holds nothing else. Returns
    /// whether there was one; at the end of the file there is none. The entries of a chunk that is
    /// read so are not returned by the reader.
    pub fn read_next_chunk_into(&mut self, buffer: &mut Vec<u8>) -> (r: Result<
        bool,
        CompressedReaderError,
    >)
        requires
            old(self).wf(),
            old(self)@.file is Some,
        ensures
            final(self).wf(),
            final(self)@.chunk == old(self)@.chunk,
            final(self)@.place == old(self)@.place,
            match old(self)@.file->0.next_chunk() {
                Ok(Some(chunk)) => {
                    &&& r == Ok::<bool, CompressedReaderError>(true)
                    &&& final(buffer)@ == chunk
                    &&& final(self)@.file == Some(old(self)@.file->0.behind(chunk.len()))
                },
                Ok(None) => {
                    &&& r == Ok::<bool, CompressedReaderError>(false)
                    &&& *final(buffer) == *old(buffer)
                    &&& final(self)@.file == old(self)@.file
                },
                Err(e) => {
                    &&& r == Err::<bool, CompressedReaderError>(
                        CompressedReaderError::BinpackError(e),
                    )
                    &&& *final(buffer) == *old(buffer)
                    &&& final(self)@.file == old(self)@.file
                },
            },
    {
        match self.read_chunk(buffer) {
            Ok(true) => {
                self.stream.pass();
                self.look_ahead();
                Ok(true)
            },
            Ok(false) => Ok(false),
            Err(e) => Err(CompressedReaderError::BinpackError(e)),
        }
    }

    /// Parses all entries of a chunk.
    pub fn parse_chunk(chunk: &[u8]) -> (r: Vec<TrainingDataEntry>)
        requires
            entries_of_chunk(chunk@) is Some,
        ensures
            models(r@) == entries_of_chunk(chunk@)->0,
    {
        parse_chunk(chunk)
    }

    /// Whether there are more entries to read.
    pub fn has_next(&self) -> (r: bool)
        requires
            self.wf(),
        ensures
            r == self@.has_next(),
    {
        self.stream.has_next()
    }

    /// Whether the next entry is a continuation of the one that `next` returned last.
    pub fn is_next_entry_continuation(&self) -> (r: bool)
        ensures
            r == self@.in_chain(),
    {
        self.stream.is_next_entry_continuation()
    }

    /// Reads the next entry. There is none if no entry is left, if a chunk holds something else, or
    /// if a chunk is needed before or behind the entry and cannot be read; the reader then stays
    /// where it is.
    pub fn try_next(&mut self) -> (r: Option<TrainingDataEntry>)
        requires
            old(self).wf(),
        ensures
            final(self).wf(),
            match old(self)@.next() {
                Some((e, reader)) => r is Some && r->0@ == e && final(self)@ == reader,
                None => r is None && final(self)@ == old(self)@,
            },
    {
        if self.stream.at_hand() {
            return self.take_entry();
        }
        if self.input_file.is_none() {
            return None;
        }
        let place = self.stream.chunk_reader.copy();
        let phase = self.stream.phase;
        let mut chunk: Vec<u8> = Vec::new();
        std::mem::swap(&mut self.stream.chunk, &mut chunk);
        let pos: usize = self.input_file.as_ref().unwrap().file.pos;
        let mut entry: Option<TrainingDataEntry> = None;
        if self.skip_to_entry() {
            entry = self.take_entry();
        }
        if entry.is_none() {
            self.stream.chunk = chunk;
            self.stream.chunk_reader = place;
            self.stream.phase = phase;
            let mut file = self.input_file.take().unwrap();
            file.file.pos = pos;
            self.input_file = Some(file);
        }
        entry
    }

    /// Reads the next entry.
    pub fn next(&mut self) -> (r: TrainingDataEntry)
        requires
            old(self).wf(),
            old(self)@.next() is Some,
        ensures
            final(self).wf(),
            (r@, final(self)@) == old(self)@.next()->0,
    {
        self.try_next().unwrap()
    }

    fn take_entry(&mut self) -> (r: Option<TrainingDataEntry>)
        requires
            old(self).wf(),
            old(self)@.at_hand(),
        ensures
            final(self).parts_wf(),
            final(self)@.file is Some == old(self)@.file is Some,
            old(self)@.file is Some ==> final(self)@.file->0.data == old(self)@.file->0.data
                && final(self)@.file->0.start == old(self)@.file->0.start,
            match old(self)@.taken() {
                Some((e, reader)) => r is Some && r->0@ == e && final(self)@ == reader
                    && final(self).wf(),
                None => r is None && final(self)@ == old(self)@ && final(self).wf(),
            },
    {
        let before = self.stream.chunk_reader.copy();
        let entry = match self.stream.try_next() {
            Some(entry) => entry,
            None => {
                return None;
            },
        };
        if !self.fetch_next_chunk_if_needed() {
            self.stream.chunk_reader = before;
            self.stream.phase = Phase::Reading;
            return None;
        }
        Some(entry)
    }

    fn fetch_next_chunk_if_needed(&mut self) -> (r: bool)
        requires
            old(self).parts_wf(),
            old(self).stream.phase == if old(self)@.at_hand() {
                Phase::Reading
            } else {
                Phase::Loading
            },
        ensures
            final(self).parts_wf(),
            match old(self)@.fetched() {
                Some(reader) => r && final(self)@ == reader && final(self).wf(),
                None => !r && final(self)@ == old(self)@,
            },
    {
        if self.stream.action() == Action::Nothing {
            return true;
        }
        if self.input_file.is_none() {
            return false;
        }
        match self.load_next_chunk() {
            Ok(true) => true,
            Ok(false) => {
                self.stream.finish();
                true
            },
            Err(_) => false,
        }
    }

    fn skip_to_entry(&mut self) -> (r: bool)
        requires
            old(self).parts_wf(),
            !old(self)@.at_hand(),
            old(self)@.file is Some,
        ensures
            final(self).parts_wf(),
            final(self)@.file is Some,
            final(self)@.file->0.data == old(self)@.file->0.data,
            final(self)@.file->0.start == old(self)@.file->0.start,
            r == old(self)@.ready() is Some,
            r ==> final(self)@ == old(self)@.ready()->0 && final(self)@.at_hand()
                && final(self).wf(),
    {
        self.stream.seek();
        while self.stream.action() == Action::Load
            invariant
                self.parts_wf(),
                self@.file is Some,
                self@.file->0.data == old(self)@.file->0.data,
                self@.file->0.start == old(self)@.file->0.start,
                self.stream.phase == if self@.at_hand() {
                    Phase::Reading
                } else {
                    Phase::Skipping
                },
                self@.ready() == old(self)@.ready(),
            decreases self@.file_left(),
        {
            let mut chunk: Vec<u8> = Vec::new();
            match self.read_chunk(&mut chunk) {
                Ok(true) => {
                    self.stream.load(chunk);
                },
                Ok(false) => {
                    return false;
                },
                Err(_) => {
                    return false;
                },
            }
        }
        true
    }

    fn load_next_chunk(&mut self) -> (r: Result<bool, CompressedReaderError>)
        requires
            old(self).parts_wf(),
            old(self).stream.phase is Loading,
            old(self)@.file is Some,
        ensures
            final(self).parts_wf(),
            match old(self)@.file->0.next_chunk() {
                Ok(Some(chunk)) => {
                    &&& r == Ok::<bool, CompressedReaderError>(true)
                    &&& final(self)@ == old(self)@.loaded(chunk)
                    &&& final(self).wf()
                },
                Ok(None) => {
                    &&& r == Ok::<bool, CompressedReaderError>(false)
                    &&& *final(self) == *old(self)
                },
                Err(e) => {
                    &&& r == Err::<bool, CompressedReaderError>(
                        CompressedReaderError::BinpackError(e),
                    )
                    &&& *final(self) == *old(self)
                },
            },
    {
        let mut chunk: Vec<u8> = Vec::new();
        match self.read_chunk(&mut chunk) {
            Ok(true) => {
                self.stream.load(chunk);
                self.look_ahead();
                Ok(true)
            },
            Ok(false) => Ok(false),
            Err(e) => Err(CompressedReaderError::BinpackError(e)),
        }
    }

    fn read_chunk(&mut self, buffer: &mut Vec<u8>) -> (r: Result<bool, BinpackError>)
        requires
            old(self).parts_wf(),
            old(self)@.file is Some,
        ensures
            final(self).parts_wf(),
            final(self).stream == old(self).stream,
            match old(self)@.file->0.next_chunk() {
                Ok(Some(chunk)) => {
                    &&& r == Ok::<bool, BinpackError>(true)
                    &&& final(buffer)@ == chunk
                    &&& final(self)@.file == Some(old(self)@.file->0.behind(chunk.len()))
                },
                Ok(None) => {
                    &&& r == Ok::<bool, BinpackError>(false)
                    &&& *final(buffer) == *old(buffer)
                    &&& *final(self) == *old(self)
                },
                Err(e) => {
                    &&& r == Err::<bool, BinpackError>(e)
                    &&& *final(buffer) == *old(buffer)
                    &&& *final(self) == *old(self)
                },
            },
    {
        let mut file = self.input_file.take().unwrap();
        let found = file.read_next_chunk_into(buffer);
        self.input_file = Some(file);
        found
    }

    fn look_ahead(&mut self)
        requires
            old(self).parts_wf(),
            old(self)@.file is Some,
            if old(self)@.at_hand() {
                old(self).stream.phase is Reading
            } else {
                ||| old(self).stream.phase is Looking
                ||| old(self).stream.phase is Ended && !old(self)@.has_next()
            },
        ensures
            final(self).wf(),
            final(self)@ == old(self)@,
            final(self).input_file == old(self).input_file,
    {
        let mut pos: usize = self.input_file.as_ref().unwrap().file.pos;
        while self.stream.action() == Action::Look
            invariant
                self.parts_wf(),
                self@ == old(self)@,
                self.input_file == old(self).input_file,
                self@.file is Some,
                !(self.stream.phase is Looking) ==> self.wf(),
                self.stream.phase is Looking ==> !self@.at_hand() && self@.has_next()
                    == entry_ahead(self@.file->0.data, pos as nat),
            decreases
                    if self.stream.phase is Looking {
                        1int
                    } else {
                        0
                    },
                    self@.file->0.data.len() - pos,
        {
            match self.input_file.as_ref().unwrap().file.chunk_size_at(pos) {
                Ok(Some(size)) => {
                    self.stream.look(size);
                    pos = pos + 8 + size as usize;
                },
                Ok(None) => {
                    self.stream.finish();
                },
                Err(_) => {
                    self.stream.look_failed();
                },
            }
        }
    }
}

} // verus!
