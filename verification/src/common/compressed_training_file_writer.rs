//! Writing of chunks to a file in memory.
use vstd::prelude::*;

use crate::common::frame::{chunk_header, frame};

verus! {

/// Writes chunks to the end of a file, one after the other.
#[derive(Debug)]
pub struct CompressedTrainingDataFileWriter {
    pub file: Vec<u8>,
    pub start: usize,
}

/// Appends `bytes` to `file`.
pub fn append_bytes(file: &mut Vec<u8>, bytes: &[u8])
    ensures
        final(file)@ == old(file)@ + bytes@,
{
    let mut i: usize = 0;
    while i < bytes.len()
        invariant
            i <= bytes@.len(),
            file@ == old(file)@ + bytes@.take(i as int),
        decreases bytes@.len() - i,
    {
        file.push(bytes[i]);
        i = i + 1;
        assert(file@ =~= old(file)@ + bytes@.take(i as int));
    }
    assert(bytes@.take(i as int) =~= bytes@);
}

impl CompressedTrainingDataFileWriter {
    /// Whether nothing that was there before has been taken away.
    pub open spec fn wf(&self) -> bool {
        self.start <= self.file@.len()
    }

    /// Writes to the end of `file`.
    pub fn new(file: Vec<u8>) -> (r: CompressedTrainingDataFileWriter)
        ensures
            r.wf(),
            r.file == file,
            r.start == file@.len(),
    {
        let start: usize = file.len();
        CompressedTrainingDataFileWriter { file, start }
    }

    /// Appends `chunk` in its frame.
    pub fn append(&mut self, chunk: &[u8])
        requires
            old(self).wf(),
            chunk@.len() <= u32::MAX,
        ensures
            final(self).wf(),
            final(self).file@ == old(self).file@ + frame(chunk@),
            final(self).start == old(self).start,
    {
        let header: [u8; 8] = chunk_header(chunk.len() as u32);
        append_bytes(&mut self.file, &header);
        append_bytes(&mut self.file, chunk);
        assert(self.file@ =~= old(self).file@ + frame(chunk@));
    }

    /// How many bytes have been written.
    pub fn written_bytes(&self) -> (r: u64)
        requires
            self.wf(),
        ensures
            r == self.file@.len() - self.start,
    {
        (self.file.len() - self.start) as u64
    }

    /// The file.
    pub fn into_inner(self) -> (r: Vec<u8>)
        ensures
            r == self.file,
    {
        self.file
    }
}

} // verus!
