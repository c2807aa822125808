//! What holds of readers as a whole.
use vstd::prelude::*;

use crate::common::bits::bits_of;
use crate::common::compressed_training_file_reader::FileModel;
use crate::common::entry::{entry_of_bytes, EntryModel};
use crate::common::entry_rules::pair;
use crate::reader::chunk_reader::ChunkReaderModel;
use crate::reader::compressed_reader::{CompressedReaderError, ReaderModel};
use crate::reader::move_score_list_reader::MoveListModel;

verus! {

/// What a reader still has to return tells whether it has a next entry and which one that is: it has
/// none exactly if nothing is left, and otherwise it returns the first of what is left and then has
/// the others left.
pub proof fn law_next_of_rest(r: ReaderModel)
    requires
        r.rest() is Some,
    ensures
        r.has_next() == (r.rest()->0.len() > 0),
        r.has_next() ==> {
            &&& r.next() matches Some((e, behind))
            &&& e == r.rest()->0[0]
            &&& behind.rest() == Some(r.rest()->0.skip(1))
        },
{
    if r.has_next() {
        let (e, next) = r.next()->0;
        let rest = next.rest()->0;
        assert((seq![e] + rest).skip(1) =~= rest);
    }
}

/// The next entry of a reader of plies continues the last one.
proof fn lemma_list_continues(list: MoveListModel, bits: Seq<bool>)
    ensures
        list.next(bits) matches Some((e, next)) ==> {
            &&& list.entry.is_continued_by(e)
            &&& next.entry == e
        },
{
}

/// The next entry at `place`, without what it is made of.
#[verifier::opaque]
pub open spec fn step(place: ChunkReaderModel, chunk: Seq<u8>) -> Option<(EntryModel, ChunkReaderModel)> {
    place.next(chunk)
}

/// A reader of plies, if there is one behind an entry, follows that entry. The entry that it reads
/// continues the one that it follows.
proof fn lemma_step(place: ChunkReaderModel, chunk: Seq<u8>)
    ensures
        step(place, chunk) matches Some((e, next)) ==> {
            &&& next.movelist matches Some(list) ==> list.entry == e
            &&& place.movelist matches Some(list) ==> list.entry.is_continued_by(e)
        },
{
    reveal(step);
    if place.movelist is Some && place.offset <= chunk.len() {
        lemma_list_continues(
            place.movelist->0,
            bits_of(chunk.skip(place.offset as int)),
        );
    }
}

/// The next entry of a reader, without what it is made of.
#[verifier::opaque]
pub open spec fn reader_step(r: ReaderModel) -> Option<(EntryModel, ReaderModel)> {
    r.next()
}

/// The next entry of a reader is that of the chunk at hand.
pub proof fn lemma_reader_step(r: ReaderModel)
    ensures
        reader_step(r) == match r.ready() {
            None => None,
            Some(q) => match step(q.place, q.chunk) {
                None => None,
                Some((e, place)) => match (ReaderModel { place, ..q }).fetched() {
                    None => None,
                    Some(next) => Some((e, next)),
                },
            },
        },
{
    reveal(reader_step);
    reveal(step);
}

/// Two entries that are returned one after the other: if the reader said in between that the next
/// entry is a continuation, then it is one.
proof fn lemma_continuation(r: ReaderModel)
    ensures
        reader_step(r) matches Some((first, then)) ==> then.in_chain() ==> (reader_step(
            then,
        ) matches Some((second, behind)) ==> first.is_continued_by(second)),
{
    lemma_reader_step(r);
    if let Some(q) = r.ready() {
        lemma_step(q.place, q.chunk);
    }
    if let Some((first, then)) = reader_step(r) {
        lemma_reader_step(then);
        lemma_step(then.place, then.chunk);
    }
}

/// Of two entries that are returned one after the other, the second continues the first if the
/// reader said in between that the next entry is a continuation.
pub proof fn law_is_next_entry_continuation(
    r: ReaderModel,
    first: EntryModel,
    then: ReaderModel,
    second: EntryModel,
    behind: ReaderModel,
)
    requires
        r.next() == Some((first, then)),
        then.in_chain(),
        then.next() == Some((second, behind)),
    ensures
        first.is_continued_by(second),
{
    reveal(reader_step);
    lemma_continuation(r);
}

/// A reader has entries left exactly if its chunk has one, or if one of the chunks behind it has at
/// least 36 bytes or cannot be read.
pub proof fn law_has_next(r: ReaderModel)
    ensures
        r.at_hand() ==> r.has_next(),
        !r.at_hand() && r.file is None ==> !r.has_next(),
        !r.at_hand() && r.file is Some ==> match r.file->0.next_chunk() {
            Err(_) => r.has_next(),
            Ok(None) => !r.has_next(),
            Ok(Some(chunk)) => {
                let behind = ReaderModel {
                    chunk,
                    place: ChunkReaderModel::start(),
                    file: Some(r.file->0.behind(chunk.len())),
                };
                &&& behind.at_hand() == (chunk.len() >= 36)
                &&& r.has_next() == behind.has_next()
            },
        },
{
}

/// A reader is opened on the first chunk behind the place of its file. It cannot be opened at the end
/// of the file, nor if that chunk cannot be read, and then says why.
pub proof fn law_open(f: FileModel)
    ensures
        f.pos >= f.data.len() ==> ReaderModel::open(f) == Err::<ReaderModel, CompressedReaderError>(
            CompressedReaderError::EndOfFile,
        ),
        f.next_chunk() matches Err(e) ==> ReaderModel::open(f) == Err::<
            ReaderModel,
            CompressedReaderError,
        >(CompressedReaderError::BinpackError(e)),
        f.next_chunk() matches Ok(Some(chunk)) ==> {
            &&& ReaderModel::open(f) matches Ok(r)
            &&& r.chunk == chunk
            &&& r.place.offset == 0 && r.place.movelist is None
            &&& r.file matches Some(g)
            &&& g.data == f.data
            &&& g.pos == f.pos + 8 + chunk.len()
            &&& g.start == f.start
        },
{
}

/// When the last entry of a chunk is taken, the next chunk is read: the reader is then at its start.
/// At the end of the file it stays where it is. If the chunk cannot be read, or the file has been
/// taken out, there is no entry.
pub proof fn law_chunk_fetched(r: ReaderModel)
    requires
        r.at_hand(),
        r.place.next(r.chunk) matches Some((e, place)) && !place.has_next(r.chunk),
    ensures
        ({
            let (e, place) = r.place.next(r.chunk)->0;
            &&& r.file is None ==> r.next() is None
            &&& r.file is Some ==> match r.file->0.next_chunk() {
                Err(_) => r.next() is None,
                Ok(None) => r.next() == Some((e, ReaderModel { place, ..r })),
                Ok(Some(chunk)) => {
                    &&& r.next() matches Some((first, then))
                    &&& first == e
                    &&& then.chunk == chunk
                    &&& then.place == ChunkReaderModel::start()
                    &&& then.file matches Some(g)
                    &&& g.data == r.file->0.data
                    &&& g.pos == r.file->0.pos + 8 + chunk.len()
                },
            }
        }),
{
    lemma_reader_step(r);
    reveal(reader_step);
    reveal(step);
    assert(r.ready() == Some(r));
}

/// There is no ply after the last possible one, nor after a result that cannot be negated, nor once
/// all have been read.
pub proof fn law_no_ply(list: MoveListModel, bits: Seq<bool>)
    requires
        list.num_read >= list.num_plies || list.entry.ply == 65535 || list.entry.result == -32768,
    ensures
        list.next(bits) is None,
{
}

/// The next entry belongs to the chain of the last one while not all of its plies have been read.
pub proof fn law_in_chain(r: ReaderModel)
    ensures
        r.in_chain() == (r.place.movelist is Some && r.place.movelist->0.num_read
            < r.place.movelist->0.num_plies),
{
}

/// What is behind a stem: its plies, or the next stem.
proof fn lemma_stem_step(place: ChunkReaderModel, chunk: Seq<u8>)
    requires
        place.movelist is None,
    ensures
        step(place, chunk) matches Some((e, next)) ==> {
            let i = place.offset as int;
            &&& place.offset + 36 <= chunk.len()
            &&& e == entry_of_bytes(chunk.subrange(i, i + 34))
            &&& next.offset == place.offset + 36
            &&& pair(chunk, i + 34) == 0 ==> next.movelist is None
            &&& pair(chunk, i + 34) > 0 ==> {
                &&& next.movelist matches Some(list)
                &&& list.num_plies == pair(chunk, i + 34)
                &&& list.num_read == 0
            }
        },
{
    reveal(step);
}

/// What is behind a ply: a further one, if not all have been read.
proof fn lemma_ply_step(place: ChunkReaderModel, chunk: Seq<u8>)
    requires
        place.movelist is Some,
    ensures
        step(place, chunk) matches Some((e, next)) ==> {
            let before = place.movelist->0;
            &&& before.num_plies - before.num_read == 1 ==> next.movelist is None
            &&& before.num_plies - before.num_read > 1 ==> {
                &&& next.movelist matches Some(list)
                &&& list.num_plies == before.num_plies
                &&& list.num_read == before.num_read + 1
            }
        },
{
    reveal(step);
}

/// A reader with an entry at hand takes it from its chunk. It is within a chain behind it exactly if
/// the place in the chunk is.
proof fn lemma_taken(r: ReaderModel)
    requires
        r.at_hand(),
    ensures
        reader_step(r) matches Some((e, then)) ==> {
            &&& step(r.place, r.chunk) matches Some((first, place))
            &&& e == first
            &&& then.in_chain() == (place.movelist is Some && place.movelist->0.num_read
                < place.movelist->0.num_plies)
        },
{
    lemma_reader_step(r);
    assert(r.ready() == Some(r));
}

/// A reader that is not within a chain takes the next entry from its 34 bytes. It is within a chain
/// behind it exactly if the two bytes that follow say that there are plies.
pub proof fn law_stem_taken(r: ReaderModel, e: EntryModel, then: ReaderModel)
    requires
        r.at_hand(),
        r.place.movelist is None,
        r.next() == Some((e, then)),
    ensures
        ({
            let i = r.place.offset as int;
            &&& i + 36 <= r.chunk.len()
            &&& e == entry_of_bytes(r.chunk.subrange(i, i + 34))
            &&& then.in_chain() == (256 * r.chunk[i + 34] + r.chunk[i + 35] > 0)
        }),
{
    assert(reader_step(r) == Some((e, then))) by {
        reveal(reader_step);
    }
    lemma_taken(r);
    lemma_stem_step(r.place, r.chunk);
}

/// A reader that is within a chain takes the next ply after the last entry: the position is the one
/// after the move, the ply is the next one, and the result is that of the other side. It is still
/// within the chain behind it exactly if more than one ply was left.
pub proof fn law_ply_taken(r: ReaderModel, e: EntryModel, then: ReaderModel)
    requires
        r.place.movelist is Some,
        r.place.movelist->0.num_read < r.place.movelist->0.num_plies,
        r.next() == Some((e, then)),
    ensures
        ({
            let list = r.place.movelist->0;
            &&& e.pos == list.entry.pos.after_move(list.entry.mv)
            &&& e.ply == list.entry.ply + 1
            &&& e.result == -list.entry.result
            &&& then.in_chain() == (list.num_plies - list.num_read > 1)
        }),
{
    assert(reader_step(r) == Some((e, then))) by {
        reveal(reader_step);
    }
    assert(r.at_hand());
    lemma_taken(r);
    lemma_ply_step(r.place, r.chunk);
    lemma_step(r.place, r.chunk);
}

} // verus!
