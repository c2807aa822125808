//! Reading of chunks from a file in memory.
use vstd::prelude::*;

use crate::common::binpack_error::{BinpackError, IoError};
use crate::common::frame::{chunk_size, next_frame};

verus! {

/// Bytes, and a place among them from which they are read.
#[derive(Debug)]
pub struct Cursor {
    pub data: Vec<u8>,
    pub pos: usize,
}

impl Cursor {
    /// The place before the first byte.
    pub fn new(data: Vec<u8>) -> (r: Cursor)
        ensures
            r.data == data,
            r.pos == 0,
    {
        Cursor { data, pos: 0 }
    }

    /// The number of bytes before the place.
    pub fn position(&self) -> (r: u64)
        ensures
            r == self.pos,
    {
        self.pos as u64
    }

    /// All the bytes.
    pub fn into_inner(self) -> (r: Vec<u8>)
        ensures
            r == self.data,
    {
        self.data
    }

    /// Whether all bytes have been read.
    pub fn is_at_end(&self) -> (r: bool)
        ensures
            r == (self.pos >= self.data@.len()),
    {
        self.pos >= self.data.len()
    }

    /// The size of the chunk whose frame is at `pos`. There is none at the end of the bytes. It is an
    /// error if the chunk cannot be read.
    pub fn chunk_size_at(&self, pos: usize) -> (r: Result<Option<u32>, BinpackError>)
        ensures
            match next_frame(self.data@, pos as nat) {
                Ok(Some(chunk)) => {
                    &&& r matches Ok(Some(size))
                    &&& size == chunk.len()
                    &&& pos + 8 + size <= self.data.len()
                },
                Ok(None) => r == Ok::<Option<u32>, BinpackError>(None),
                Err(e) => r == Err::<Option<u32>, BinpackError>(e),
            },
    {
        if pos >= self.data.len() {
            return Ok(None);
        }
        let left: usize = self.data.len() - pos;
        if left < 8 {
            return Err(BinpackError::Io(IoError::UnexpectedEof));
        }
        let data: &[u8] = self.data.as_slice();
        let size: u32 = match chunk_size(&data[pos..pos + 8]) {
            Ok(size) => size,
            Err(e) => {
                return Err(e);
            },
        };
        if left - 8 < size as usize {
            return Err(BinpackError::Io(IoError::UnexpectedEof));
        }
        Ok(Some(size))
    }

    /// Reads the chunk at the place into `buffer`, which then holds nothing else. Returns whether
    /// there was one; at the end of the bytes there is none. The buffer and the place stay as they
    /// are if there is none or if it cannot be read.
    pub fn read_chunk(&mut self, buffer: &mut Vec<u8>) -> (r: Result<bool, BinpackError>)
        ensures
            final(self).data == old(self).data,
            match next_frame(old(self).data@, old(self).pos as nat) {
                Ok(Some(chunk)) => {
                    &&& r == Ok::<bool, BinpackError>(true)
                    &&& final(buffer)@ == chunk
                    &&& final(self).pos == old(self).pos + 8 + chunk.len()
                },
                Ok(None) => {
                    &&& r == Ok::<bool, BinpackError>(false)
                    &&& *final(buffer) == *old(buffer)
                    &&& final(self).pos == old(self).pos
                },
                Err(e) => {
                    &&& r == Err::<bool, BinpackError>(e)
                    &&& *final(buffer) == *old(buffer)
                    &&& final(self).pos == old(self).pos
                },
            },
    {
        let size: usize = match self.chunk_size_at(self.pos) {
            Ok(Some(size)) => size as usize,
            Ok(None) => {
                return Ok(false);
            },
            Err(e) => {
                return Err(e);
            },
        };
        let start: usize = self.pos + 8;
        let data: &[u8] = self.data.as_slice();
        assert(data@.len() == self.data.len());
        buffer.clear();
        let mut i: usize = 0;
        while i < size
            invariant
                i <= size,
                start + size <= data@.len(),
                buffer@ == data@.subrange(start as int, start + i),
                data@.len() <= usize::MAX,
            decreases size - i,
        {
            buffer.push(data[start + i]);
            i = i + 1;
            assert(buffer@ =~= data@.subrange(start as int, start + i));
        }
        self.pos = start + size;
        Ok(true)
    }
}

/// Reads the chunks of a file, one after the other.
#[derive(Debug)]
pub struct CompressedTrainingDataFileReader {
    pub file: Cursor,
    pub start: usize,
}

/// What a reader of chunks means: the bytes of the file, where reading began, and where it is.
pub struct FileModel {
    pub data: Seq<u8>,
    pub start: nat,
    pub pos: nat,
}

impl View for CompressedTrainingDataFileReader {
    type V = FileModel;

    open spec fn view(&self) -> FileModel {
        FileModel {
            data: self.file.data@,
            start: self.start as nat,
            pos: self.file.pos as nat,
        }
    }
}

impl FileModel {
    /// The next chunk.
    pub open spec fn next_chunk(self) -> Result<Option<Seq<u8>>, BinpackError> {
        next_frame(self.data, self.pos)
    }

    /// The file after a chunk of `size` bytes has been read.
    pub open spec fn behind(self, size: nat) -> FileModel {
        FileModel { pos: self.pos + 8 + size, ..self }
    }

    /// How many bytes are left.
    pub open spec fn bytes_left(self) -> int {
        if self.pos <= self.data.len() {
            self.data.len() - self.pos
        } else {
            0
        }
    }
}

impl CompressedTrainingDataFileReader {
    /// Whether reading has not gone backwards.
    pub open spec fn wf(&self) -> bool {
        self.start <= self.file.pos
    }

    /// Reads the chunks of `file` from its place on.
    pub fn new(file: Cursor) -> (r: CompressedTrainingDataFileReader)
        ensures
            r.wf(),
            r.file == file,
            r.start == file.pos,
    {
        let start: usize = file.pos;
        CompressedTrainingDataFileReader { file, start }
    }

    /// Whether bytes are left.
    pub fn has_next_chunk(&self) -> (r: bool)
        ensures
            r == !(self@.next_chunk() == Ok::<Option<Seq<u8>>, BinpackError>(None)),
    {
        !self.file.is_at_end()
    }

    /// Reads the next chunk into `buffer`. Returns whether there was one; at the end of the file
    /// there is none. The buffer and the reader stay as they are if there is none or if it cannot be
    /// read.
    pub fn read_next_chunk_into(&mut self, buffer: &mut Vec<u8>) -> (r: Result<bool, BinpackError>)
        requires
            old(self).wf(),
        ensures
            final(self).wf(),
            match old(self)@.next_chunk() {
                Ok(Some(chunk)) => {
                    &&& r == Ok::<bool, BinpackError>(true)
                    &&& final(buffer)@ == chunk
                    &&& final(self)@ == old(self)@.behind(chunk.len())
                },
                Ok(None) => {
                    &&& r == Ok::<bool, BinpackError>(false)
                    &&& *final(buffer) == *old(buffer)
                    &&& *final(self) == *old(self)
                },
                Err(e) => {
                    &&& r == Err::<bool, BinpackError>(e)
                    &&& *final(buffer) == *old(buffer)
                    &&& *final(self) == *old(self)
                },
            },
    {
        self.file.read_chunk(buffer)
    }

    /// How many bytes have been read.
    pub fn read_bytes(&self) -> (r: u64)
        requires
            self.wf(),
        ensures
            r == self@.pos - self@.start,
    {
        (self.file.pos - self.start) as u64
    }

    /// The file, at the place that was reached.
    pub fn into_inner(self) -> (r: Cursor)
        ensures
            r == self.file,
    {
        self.file
    }
}

} // verus!
