//! The frame of a chunk in a file: the magic "BINP", the size of the chunk in four bytes, the lowest
//! one first, and the chunk.
use vstd::prelude::*;

use crate::common::binpack_error::{BinpackError, IoError};

verus! {

/// The bytes of "BINP".
pub open spec fn magic() -> Seq<u8> {
    seq![66u8, 73u8, 78u8, 80u8]
}

/// The four bytes of a number, the lowest first.
pub open spec fn le32(n: u32) -> Seq<u8> {
    seq![
        (n % 256) as u8,
        (n / 256 % 256) as u8,
        (n / 65536 % 256) as u8,
        (n / 16777216) as u8,
    ]
}

/// The number whose four bytes, the lowest first, are at `i`.
pub open spec fn from_le32(data: Seq<u8>, i: int) -> u32 {
    (data[i] + 256 * data[i + 1] + 65536 * data[i + 2] + 16777216 * data[i + 3]) as u32
}

/// The header of a chunk of `size` bytes.
pub open spec fn header_bytes(size: u32) -> Seq<u8> {
    magic() + le32(size)
}

/// The size of the chunk whose header is `header`.
pub open spec fn size_of_header(header: Seq<u8>) -> Result<u32, BinpackError> {
    if header.take(4) == magic() {
        Ok(from_le32(header, 4))
    } else {
        Err(BinpackError::InvalidMagic)
    }
}

/// A chunk in its frame.
pub open spec fn frame(chunk: Seq<u8>) -> Seq<u8> {
    header_bytes(chunk.len() as u32) + chunk
}

/// The chunk whose frame is at `pos` in `data`. There is none at the end. It is an error if the
/// header or the chunk is cut off, or if the header does not begin with the magic.
pub open spec fn next_frame(data: Seq<u8>, pos: nat) -> Result<Option<Seq<u8>>, BinpackError> {
    if pos >= data.len() {
        Ok(None)
    } else if data.len() - pos < 8 {
        Err(BinpackError::Io(IoError::UnexpectedEof))
    } else {
        match size_of_header(data.subrange(pos as int, pos as int + 8)) {
            Err(e) => Err(e),
            Ok(size) => if data.len() - pos - 8 < size {
                Err(BinpackError::Io(IoError::UnexpectedEof))
            } else {
                Ok(Some(data.subrange(pos as int + 8, pos as int + 8 + size)))
            },
        }
    }
}

/// A number is read back from its four bytes.
proof fn lemma_le32(n: u32, data: Seq<u8>, i: int)
    requires
        0 <= i,
        i + 4 <= data.len(),
        data.subrange(i, i + 4) == le32(n),
    ensures
        from_le32(data, i) == n,
{
    assert(data[i] == data.subrange(i, i + 4)[0]);
    assert(data[i + 1] == data.subrange(i, i + 4)[1]);
    assert(data[i + 2] == data.subrange(i, i + 4)[2]);
    assert(data[i + 3] == data.subrange(i, i + 4)[3]);
    assert(n / 65536 == n / 256 / 256);
    assert(n / 16777216 == n / 65536 / 256);
}

/// A chunk is read back from its frame, whatever stands before and behind it.
pub proof fn law_frame_round_trip(before: Seq<u8>, chunk: Seq<u8>, behind: Seq<u8>)
    requires
        chunk.len() <= u32::MAX,
    ensures
        next_frame(before + frame(chunk) + behind, before.len()) == Ok::<_, BinpackError>(
            Some(chunk),
        ),
{
    let data = before + frame(chunk) + behind;
    let pos = before.len() as int;
    let size = chunk.len() as u32;
    let header = data.subrange(pos, pos + 8);
    assert(header =~= header_bytes(size));
    assert(header.take(4) =~= magic());
    assert(header.subrange(4, 8) =~= le32(size));
    lemma_le32(size, header, 4);
    assert(data.subrange(pos + 8, pos + 8 + size) =~= chunk);
}

/// The header of a chunk of `size` bytes.
pub fn chunk_header(size: u32) -> (r: [u8; 8])
    ensures
        r@ == header_bytes(size),
{
    let r: [u8; 8] = [
        66,
        73,
        78,
        80,
        (size % 256) as u8,
        (size / 256 % 256) as u8,
        (size / 65536 % 256) as u8,
        (size / 16777216) as u8,
    ];
    assert(r@ =~= header_bytes(size));
    r
}

/// The size of the chunk whose header is `header`.
pub fn chunk_size(header: &[u8]) -> (r: Result<u32, BinpackError>)
    requires
        header@.len() == 8,
    ensures
        r == size_of_header(header@),
{
    if header[0] == 66 && header[1] == 73 && header[2] == 78 && header[3] == 80 {
        assert(header@.take(4) =~= magic());
        Ok(
            header[4] as u32 + 256 * header[5] as u32 + 65536 * header[6] as u32 + 16777216
                * header[7] as u32,
        )
    } else {
        assert(header@.take(4) != magic()) by {
            assert(header@.take(4)[0] == header@[0]);
            assert(header@.take(4)[1] == header@[1]);
            assert(header@.take(4)[2] == header@[2]);
            assert(header@.take(4)[3] == header@[3]);
        }
        Err(BinpackError::InvalidMagic)
    }
}

} // verus!
