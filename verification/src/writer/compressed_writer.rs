//! Writing of entries to a binpack file.
use vstd::prelude::*;

use crate::common::binpack_error::IoError;
use crate::common::compressed_training_file_writer::CompressedTrainingDataFileWriter;
use crate::common::entry::{EntryModel, TrainingDataEntry};
use crate::common::frame::frame;
use crate::writer::entry_packer::{EntryPacker, PackerModel};

verus! {

/// What can go wrong when a binpack is written.
#[derive(Debug)]
pub enum CompressedWriterError {
    Io(IoError),
    InvalidFormat(String),
    EndOfFile,
}

/// Writes binpacks from `TrainingDataEntry`s to a file.
#[derive(Debug)]
pub struct CompressedTrainingDataEntryWriter {
    pub packer: EntryPacker,
    pub output_file: Option<CompressedTrainingDataFileWriter>,
}

/// What a writer means: the chunk that is being packed, and the bytes of the file, if it has not
/// been taken out.
#[verifier::ext_equal]
pub struct WriterModel {
    pub packer: PackerModel,
    pub file: Option<Seq<u8>>,
}

impl View for CompressedTrainingDataEntryWriter {
    type V = WriterModel;

    open spec fn view(&self) -> WriterModel {
        WriterModel {
            packer: self.packer@,
            file: match self.output_file {
                Some(f) => Some(f.file@),
                None => None,
            },
        }
    }
}

impl WriterModel {
    /// The writer before the first entry, to write behind `before`.
    pub open spec fn start(before: Seq<u8>) -> WriterModel {
        WriterModel { packer: PackerModel::start(), file: Some(before) }
    }

    /// The writer with its chunk in the file.
    pub open spec fn appended(self) -> WriterModel {
        WriterModel {
            packer: self.packer.emptied(),
            file: Some(self.file->0 + frame(self.packer.packed)),
        }
    }

    /// Whether `e` can be written next: it can be packed, and the file is there if the chunk is to
    /// be ended before it.
    pub open spec fn accepts(self, e: EntryModel) -> bool {
        &&& self.packer.accepts(e)
        &&& !self.packer.last.is_continued_by(e) && self.packer.closed().full()
            ==> self.file is Some
    }

    /// The writer after `e`.
    pub open spec fn with_entry(self, e: EntryModel) -> WriterModel {
        if self.packer.last.is_continued_by(e) {
            WriterModel { packer: self.packer.with_ply(e), ..self }
        } else {
            let closed = WriterModel { packer: self.packer.closed(), ..self };
            let ready = if closed.packer.full() {
                closed.appended()
            } else {
                closed
            };
            WriterModel { packer: ready.packer.with_stem(e), ..ready }
        }
    }

    /// Whether what has been packed can be written to the file: there is nothing, or there is room
    /// for the plies of the current chain, and the file is there.
    pub open spec fn can_flush(self) -> bool {
        self.packer.packed.len() > 0 ==> self.packer.has_room() && self.file is Some
    }

    /// The writer after what has been packed has been written to the file. The next entry then
    /// begins a new chain.
    pub open spec fn flushed(self) -> WriterModel {
        if self.packer.packed.len() > 0 {
            WriterModel::start(self.file->0 + frame(self.packer.closed().packed))
        } else {
            self
        }
    }
}

impl CompressedTrainingDataEntryWriter {
    /// Whether the packer and the file are well formed.
    pub open spec fn wf(&self) -> bool {
        &&& self.packer.wf()
        &&& self.output_file is Some ==> self.output_file->0.wf()
    }

    /// How long the file was before the first entry was written.
    pub open spec fn start(&self) -> nat {
        self.output_file->0.start as nat
    }

    /// Writes entries to the end of `file`. All of them are there only after `flush_and_end`.
    pub fn new(file: Vec<u8>) -> (r: Result<
        CompressedTrainingDataEntryWriter,
        CompressedWriterError,
    >)
        ensures
            r is Ok,
            r->Ok_0.wf(),
            r->Ok_0@ == WriterModel::start(file@),
            r->Ok_0.start() == file@.len(),
    {
        Ok(
            CompressedTrainingDataEntryWriter {
                packer: EntryPacker::default(),
                output_file: Some(CompressedTrainingDataFileWriter::new(file)),
            },
        )
    }

    /// Writes entries to a new file.
    pub fn new_in_memory() -> (r: Result<CompressedTrainingDataEntryWriter, CompressedWriterError>)
        ensures
            r is Ok,
            r->Ok_0.wf(),
            r->Ok_0@ == WriterModel::start(Seq::empty()),
            r->Ok_0.start() == 0,
    {
        CompressedTrainingDataEntryWriter::new(Vec::new())
    }

    /// Takes the file out. What has been packed and not been flushed is not in it.
    pub fn into_inner(&mut self) -> (r: Result<Vec<u8>, IoError>)
        requires
            old(self).wf(),
            old(self)@.file is Some,
        ensures
            r is Ok,
            r->Ok_0@ == old(self)@.file->0,
            final(self).wf(),
            final(self)@ == (WriterModel { file: None, ..old(self)@ }),
    {
        let file = self.output_file.take().unwrap();
        Ok(file.into_inner())
    }

    /// How many bytes have been written to the file.
    pub fn written_bytes(&self) -> (r: u64)
        requires
            self.wf(),
            self@.file is Some,
        ensures
            r == self@.file->0.len() - self.start(),
    {
        self.output_file.as_ref().unwrap().written_bytes()
    }

    /// Whether `entry` can be written next.
    pub fn accepts(&self, entry: &TrainingDataEntry) -> (r: bool)
        requires
            self.wf(),
        ensures
            r == self@.accepts(entry@),
    {
        if !self.packer.accepts(entry) {
            return false;
        }
        if self.output_file.is_some() || self.packer.continues(entry) {
            return true;
        }
        !self.packer.is_full_when_closed()
    }

    /// Writes a single entry.
    pub fn write_entry(&mut self, entry: &TrainingDataEntry) -> (r: Result<
        (),
        CompressedWriterError,
    >)
        requires
            old(self).wf(),
            old(self)@.accepts(entry@),
        ensures
            r is Ok,
            final(self).wf(),
            final(self)@ == old(self)@.with_entry(entry@),
            old(self)@.file is Some ==> final(self).start() == old(self).start(),
    {
        if self.packer.begin(entry) {
            self.append_packed();
            self.packer.begin_chunk(entry);
        }
        Ok(())
    }

    /// Writes a single entry if it can be written; otherwise it is an error, and the writer stays
    /// as it is.
    pub fn try_write_entry(&mut self, entry: &TrainingDataEntry) -> (r: Result<
        (),
        CompressedWriterError,
    >)
        requires
            old(self).wf(),
        ensures
            final(self).wf(),
            r is Ok == old(self)@.accepts(entry@),
            r is Ok ==> final(self)@ == old(self)@.with_entry(entry@),
            r is Ok && old(self)@.file is Some ==> final(self).start() == old(self).start(),
            r is Err ==> r->Err_0 is InvalidFormat && *final(self) == *old(self),
    {
        if self.accepts(entry) {
            self.write_entry(entry)
        } else {
            Err(CompressedWriterError::InvalidFormat("entry cannot be stored".to_owned()))
        }
    }

    /// Writes what has been packed to the file. The next entry begins a new chain.
    pub fn flush_and_end(&mut self)
        requires
            old(self).wf(),
            old(self)@.can_flush(),
        ensures
            final(self).wf(),
            final(self)@ == old(self)@.flushed(),
            old(self)@.file is Some ==> final(self).start() == old(self).start(),
    {
        self.flush_packed();
    }

    /// Flushes the file. In memory there is nothing to flush.
    pub fn flush(&mut self)
        ensures
            *final(self) == *old(self),
    {
    }

    /// Writes what has been packed to the file and takes the bytes of the file out.
    pub fn into_bytes(&mut self) -> (r: Result<Vec<u8>, CompressedWriterError>)
        requires
            old(self).wf(),
            old(self)@.can_flush(),
            old(self)@.file is Some,
        ensures
            r is Ok,
            r->Ok_0@ == old(self)@.flushed().file->0,
            final(self).wf(),
            final(self)@ == (WriterModel { file: None, ..old(self)@.flushed() }),
    {
        self.flush_packed();
        match self.into_inner() {
            Ok(bytes) => Ok(bytes),
            Err(e) => Err(CompressedWriterError::Io(e)),
        }
    }

    fn append_packed(&mut self)
        requires
            old(self).wf(),
            old(self)@.file is Some,
        ensures
            final(self).wf(),
            final(self).packer == old(self).packer,
            final(self)@.file == Some(old(self)@.file->0 + frame(old(self)@.packer.packed)),
            final(self).start() == old(self).start(),
    {
        let mut file = self.output_file.take().unwrap();
        file.append(self.packer.packed());
        self.output_file = Some(file);
    }

    fn flush_packed(&mut self)
        requires
            old(self).wf(),
            old(self)@.can_flush(),
        ensures
            final(self).wf(),
            final(self)@ == old(self)@.flushed(),
            old(self)@.file is Some ==> final(self).start() == old(self).start(),
    {
        if self.packer.end() {
            self.append_packed();
            self.packer.reset();
        }
    }
}

} // verus!
