//! What a stream returns for the chunks that it is handed, and what it asks for.
use vstd::prelude::*;

use crate::common::chain::joined;
use crate::common::entry::EntryModel;
use crate::reader::chunk_reader::entries_of_chunk;
use crate::reader::entry_stream::StreamModel;

verus! {

/// The entries that a stream returns that is handed one of `chunks` after the other whenever it has
/// none at hand. There are none if a chunk holds something else.
pub open spec fn streamed(s: StreamModel, chunks: Seq<Seq<u8>>) -> Option<Seq<EntryModel>>
    decreases chunks.len(), s.place.bytes_left(s.chunk), s.place.plies_left(),
{
    if s.at_hand() {
        match s.next() {
            None => None,
            Some((e, next)) => match streamed(next, chunks) {
                None => None,
                Some(entries) => Some(seq![e] + entries),
            },
        }
    } else if chunks.len() > 0 {
        streamed(s.loaded(chunks[0]), chunks.skip(1))
    } else {
        Some(Seq::empty())
    }
}

/// The entries of `chunks`, those of each behind those of the ones before it.
pub open spec fn entries_of_chunks(chunks: Seq<Seq<u8>>) -> Option<Seq<EntryModel>>
    decreases chunks.len(),
{
    if chunks.len() == 0 {
        Some(Seq::empty())
    } else {
        joined(entries_of_chunk(chunks[0]), entries_of_chunks(chunks.skip(1)))
    }
}

/// What a stream returns: what is left of its chunk, and then the entries of the chunks.
proof fn lemma_streamed(s: StreamModel, chunks: Seq<Seq<u8>>)
    ensures
        streamed(s, chunks) == joined(s.place.rest(s.chunk), entries_of_chunks(chunks)),
    decreases chunks.len(), s.place.bytes_left(s.chunk), s.place.plies_left(),
{
    if s.at_hand() {
        if let Some((e, next)) = s.next() {
            lemma_streamed(next, chunks);
            if let (Some(a), Some(b)) = (next.place.rest(next.chunk), entries_of_chunks(chunks)) {
                assert(seq![e] + (a + b) =~= seq![e] + a + b);
            }
        }
    } else if chunks.len() > 0 {
        let next = s.loaded(chunks[0]);
        lemma_streamed(next, chunks.skip(1));
        if let Some(a) = entries_of_chunks(chunks) {
            assert(Seq::<EntryModel>::empty() + a =~= a);
        }
    } else {
        assert(Seq::<EntryModel>::empty() + Seq::<EntryModel>::empty()
            =~= Seq::<EntryModel>::empty());
    }
}

/// A stream that is handed chunks returns the entries of each of them, one chunk after the other.
pub proof fn law_streamed(chunks: Seq<Seq<u8>>)
    ensures
        streamed(StreamModel::start(), chunks) == entries_of_chunks(chunks),
{
    lemma_streamed(StreamModel::start(), chunks);
    if let Some(a) = entries_of_chunks(chunks) {
        assert(Seq::<EntryModel>::empty() + a =~= a);
    }
}

/// A stream that has been handed a chunk, or has returned an entry, is reading exactly if it has an
/// entry at hand. It has one at the start of a chunk of at least 36 bytes, and at no smaller one. If
/// it has none, it asks for the next chunk if it has just returned an entry or one is wanted, and
/// asks to look at it otherwise.
pub proof fn law_stream_asks(s: StreamModel, chunk: Seq<u8>)
    ensures
        ({
            let n = s.loaded(chunk);
            &&& n.chunk == chunk
            &&& n.at_hand() == (chunk.len() >= 36)
            &&& (n.phase is Reading) == n.at_hand()
            &&& n.at_hand() ==> n.action() is Nothing
            &&& !n.at_hand() && s.phase is Skipping ==> n.action() is Load
            &&& !n.at_hand() && !(s.phase is Skipping) ==> n.action() is Look
        }),
        s.next() matches Some((e, n)) ==> {
            &&& n.chunk == s.chunk
            &&& (n.phase is Reading) == n.at_hand()
            &&& n.at_hand() ==> n.action() is Nothing
            &&& !n.at_hand() ==> n.action() is Load
        },
{
}

/// A stream that is to bring an entry to hand asks for chunks until one of them has one, and is then
/// reading.
pub proof fn law_stream_seeks(s: StreamModel, chunk: Seq<u8>)
    ensures
        s.at_hand() ==> s.sought().action() is Nothing && s.sought().at_hand(),
        !s.at_hand() ==> {
            &&& s.sought().action() is Load
            &&& chunk.len() < 36 ==> s.sought().loaded(chunk).action() is Load
            &&& chunk.len() >= 36 ==> s.sought().loaded(chunk).action() is Nothing && s.sought().loaded(
                chunk,
            ).at_hand()
        },
        s.sought().chunk == s.chunk,
        s.sought().place == s.place,
{
}

/// A stream that looks at the chunks behind its own goes on until it sees one of at least 36 bytes.
/// Its place does not change.
pub proof fn law_stream_looks(s: StreamModel, size: nat)
    requires
        s.phase is Looking,
    ensures
        size < 36 ==> s.looked(size) == s && s.looked(size).action() is Look,
        size >= 36 ==> s.looked(size).phase is Reading && s.looked(size).action() is Nothing,
        s.looked(size).chunk == s.chunk,
        s.looked(size).place == s.place,
{
}

/// When the chunk behind the current one is passed over, a stream with an entry at hand stays as it
/// is, and one that knew of entries only behind its chunk looks again.
pub proof fn law_stream_passes(s: StreamModel)
    ensures
        s.at_hand() ==> s.passed() == s,
        !s.at_hand() && s.phase is Reading ==> s.passed().action() is Look,
        !(s.phase is Reading) ==> s.passed() == s,
        s.passed().chunk == s.chunk,
        s.passed().place == s.place,
{
}

/// The next entry of a stream belongs to the chain of the last one while not all of its plies have
/// been read.
pub proof fn law_stream_in_chain(s: StreamModel)
    ensures
        s.in_chain() == (s.place.movelist is Some && s.place.movelist->0.num_read
            < s.place.movelist->0.num_plies),
{
}

} // verus!
