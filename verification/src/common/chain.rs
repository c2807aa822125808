//! What a binpack file is made of: chains, chunks of chains, and the frames of the chunks.
use vstd::prelude::*;

use crate::common::arithmetic::{be16, from_be16, lemma_be16, wrapping_negation};
use crate::common::binpack_error::BinpackError;
use crate::common::bits::{bits_of, bytes_for, bytes_of, lemma_bits_of_bytes_of};
use crate::common::compressed_position::{ep_marks_inside, position_of_bytes};
use crate::common::compressed_training_file_reader::FileModel;
use crate::common::entry::{
    entry_bytes, entry_of_bytes, entry_storable, law_entry_round_trip, lemma_entry_bytes_len,
    packable_entry, EntryModel,
};
use crate::common::frame::{frame, law_frame_round_trip, next_frame, size_of_header};
use crate::common::move_numbers::pseudo_legal;
use crate::common::move_text::{law_ply_round_trip, ply_bits, Ply};
use crate::reader::chunk_reader::{entries_of_chunk, stem_fits, ChunkReaderModel};
use crate::reader::compressed_reader::{entry_ahead, CompressedReaderError, ReaderModel};
use crate::reader::laws::{lemma_reader_step, reader_step, step};
use crate::reader::move_score_list_reader::MoveListModel;
use crate::writer::move_score_list::PlyListModel;

verus! {

/// An entry, and the entries of the same game that follow it.
#[verifier::ext_equal]
pub struct Chain {
    pub stem: EntryModel,
    pub plies: Seq<EntryModel>,
}

/// What is stored of an entry that follows another one.
pub open spec fn ply_of(e: EntryModel) -> Ply {
    Ply { mv: e.mv, score: e.score, draw_score: e.draw_score }
}

/// The list of the entries that follow `stem`.
pub open spec fn ply_list(stem: EntryModel, plies: Seq<EntryModel>) -> PlyListModel
    decreases plies.len(),
{
    if plies.len() == 0 {
        PlyListModel::start(stem)
    } else {
        ply_list(stem, plies.drop_last()).with_ply(plies.last().pos, ply_of(plies.last()))
    }
}

/// The bytes of a list of plies: how many there are, and their text.
pub open spec fn list_bytes(list: PlyListModel) -> Seq<u8> {
    be16(list.num_plies) + bytes_of(list.bits)
}

/// Whether `e` continues `last` with a move that has a number.
#[verifier::opaque]
pub open spec fn follows(last: EntryModel, e: EntryModel) -> bool {
    last.is_continued_by(e) && pseudo_legal(e.pos, e.mv)
}

impl Chain {
    /// The entry before the one at `i` among those that follow the stem.
    pub open spec fn before(self, i: int) -> EntryModel {
        if i == 0 {
            self.stem
        } else {
            self.plies[i - 1]
        }
    }

    /// The last entry of the chain.
    pub open spec fn last_entry(self) -> EntryModel {
        self.before(self.plies.len() as int)
    }

    /// Whether the chain can be told from its stored form: the stem can, each further entry
    /// continues the one before it with a move that has a number, and their count fits into its
    /// bytes.
    #[verifier::opaque]
    pub open spec fn valid(self) -> bool {
        &&& entry_storable(self.stem)
        &&& self.plies.len() <= u16::MAX
        &&& self.linked()
    }

    /// Whether the chain has a stored form: the stem has one, each further entry continues the one
    /// before it with a move that has a number, and their count fits into its bytes.
    #[verifier::opaque]
    pub open spec fn formed(self) -> bool {
        &&& packable_entry(self.stem)
        &&& self.plies.len() <= u16::MAX
        &&& self.linked()
    }

    /// Whether each further entry continues the one before it with a move that has a number.
    #[verifier::opaque]
    pub open spec fn linked(self) -> bool {
        forall|i: int|
            #![trigger self.plies[i]]
            0 <= i < self.plies.len() ==> follows(self.before(i), self.plies[i])
    }

    /// The bytes of the chain.
    #[verifier::opaque]
    pub open spec fn bytes(self) -> Seq<u8> {
        entry_bytes(self.stem) + list_bytes(ply_list(self.stem, self.plies))
    }

    /// The entries of the chain.
    pub open spec fn entries(self) -> Seq<EntryModel> {
        seq![self.stem] + self.plies
    }
}

/// The bytes of a sequence of chains.
pub open spec fn chunk_bytes(chains: Seq<Chain>) -> Seq<u8>
    decreases chains.len(),
{
    if chains.len() == 0 {
        Seq::empty()
    } else {
        chunk_bytes(chains.drop_last()) + chains.last().bytes()
    }
}

/// The entries of a sequence of chains.
pub open spec fn chunk_entries(chains: Seq<Chain>) -> Seq<EntryModel>
    decreases chains.len(),
{
    if chains.len() == 0 {
        Seq::empty()
    } else {
        chunk_entries(chains.drop_last()) + chains.last().entries()
    }
}

/// Whether all of `chains` can be told from their stored form.
pub open spec fn all_valid(chains: Seq<Chain>) -> bool {
    forall|i: int| 0 <= i < chains.len() ==> (#[trigger] chains[i]).valid()
}

/// Whether all of `chains` have a stored form.
pub open spec fn all_formed(chains: Seq<Chain>) -> bool {
    forall|i: int| 0 <= i < chains.len() ==> (#[trigger] chains[i]).formed()
}

/// Whether the chunk of `chains` can be told from its frame: its chains can, and its size fits into
/// its bytes.
pub open spec fn chunk_valid(chains: Seq<Chain>) -> bool {
    &&& all_valid(chains)
    &&& chunk_bytes(chains).len() <= u32::MAX
}

/// The bytes of a sequence of chunks in their frames.
pub open spec fn file_bytes(chunks: Seq<Seq<Chain>>) -> Seq<u8>
    decreases chunks.len(),
{
    if chunks.len() == 0 {
        Seq::empty()
    } else {
        file_bytes(chunks.drop_last()) + frame(chunk_bytes(chunks.last()))
    }
}

/// The entries of a sequence of chunks.
pub open spec fn file_entries(chunks: Seq<Seq<Chain>>) -> Seq<EntryModel>
    decreases chunks.len(),
{
    if chunks.len() == 0 {
        Seq::empty()
    } else {
        file_entries(chunks.drop_last()) + chunk_entries(chunks.last())
    }
}

/// The entries of the file `data` from `pos` on. There are none if it holds something else.
pub open spec fn entries_of_file(data: Seq<u8>, pos: nat) -> Option<Seq<EntryModel>>
    decreases data.len() - pos,
{
    match next_frame(data, pos) {
        Err(_) => None,
        Ok(None) => Some(Seq::empty()),
        Ok(Some(chunk)) => joined(
            entries_of_chunk(chunk),
            entries_of_file(data, pos + 8 + chunk.len()),
        ),
    }
}

/// The entries of a chunk and those behind it. There are none if either has none.
pub open spec fn joined(
    chunk: Option<Seq<EntryModel>>,
    behind: Option<Seq<EntryModel>>,
) -> Option<Seq<EntryModel>> {
    match (chunk, behind) {
        (Some(a), Some(b)) => Some(a + b),
        _ => None,
    }
}

/// The place in a chunk at byte `offset`, before a chain.
spec fn place_at(offset: nat) -> ChunkReaderModel {
    ChunkReaderModel { movelist: None, offset, is_end: false }
}

/// `entries` before `behind`, if that is there.
spec fn preceded(entries: Seq<EntryModel>, behind: Option<Seq<EntryModel>>) -> Option<
    Seq<EntryModel>,
> {
    match behind {
        None => None,
        Some(rest) => Some(entries + rest),
    }
}

/// The entries from `place` on.
#[verifier::opaque]
spec fn all(place: ChunkReaderModel, chunk: Seq<u8>) -> Option<Seq<EntryModel>> {
    place.rest(chunk)
}

/// The entries from a place on are the next one and those behind it.
proof fn lemma_all(place: ChunkReaderModel, chunk: Seq<u8>)
    ensures
        !place.has_next(chunk) ==> all(place, chunk) == Some(Seq::<EntryModel>::empty()),
        place.has_next(chunk) ==> all(place, chunk) == match step(place, chunk) {
            None => None,
            Some((e, next)) => preceded(seq![e], all(next, chunk)),
        },
{
    reveal(step);
    reveal(all);
}

/// Sequences before sequences are sequences.
proof fn lemma_preceded(a: Seq<EntryModel>, b: Seq<EntryModel>, behind: Option<Seq<EntryModel>>)
    ensures
        preceded(a, preceded(b, behind)) == preceded(a + b, behind),
{
    if let Some(rest) = behind {
        assert(a + (b + rest) =~= a + b + rest);
    }
}

/// The list of some first plies is the beginning of the list of all.
proof fn lemma_list_prefix(stem: EntryModel, plies: Seq<EntryModel>, i: int)
    requires
        0 <= i <= plies.len() <= u16::MAX,
    ensures
        ply_list(stem, plies.take(i)).num_plies == i,
        ply_list(stem, plies.take(i)).bits.len() <= ply_list(stem, plies).bits.len(),
        ply_list(stem, plies).bits.take(ply_list(stem, plies.take(i)).bits.len() as int)
            == ply_list(stem, plies.take(i)).bits,
    decreases plies.len(),
{
    if i == plies.len() {
        assert(plies.take(i) =~= plies);
        let bits = ply_list(stem, plies).bits;
        assert(bits.take(bits.len() as int) =~= bits);
        if i > 0 {
            lemma_list_prefix(stem, plies.drop_last(), i - 1);
            assert(plies.drop_last().take(i - 1) =~= plies.drop_last());
        }
    } else {
        lemma_list_prefix(stem, plies.drop_last(), i);
        assert(plies.drop_last().take(i) =~= plies.take(i));
        let n = ply_list(stem, plies.take(i)).bits.len() as int;
        assert(ply_list(stem, plies).bits.take(n) =~= ply_list(stem, plies.drop_last()).bits.take(
            n,
        ));
    }
}

/// The bits of some bytes begin with the bits that the first of them were made of.
proof fn lemma_text_bits(text: Seq<u8>, bits: Seq<bool>)
    requires
        bytes_for(bits.len()) <= text.len(),
        text.take(bytes_for(bits.len()) as int) == bytes_of(bits),
    ensures
        bits.is_prefix_of(bits_of(text)),
{
    let n = bytes_for(bits.len()) as int;
    assert forall|k: int| 0 <= k < bits.len() implies bits[k] == #[trigger] bits_of(text)[k] by {
        lemma_bits_of_bytes_of(bits, k);
        assert(text[k / 8] == text.take(n)[k / 8]);
    }
    assert(bits =~= bits_of(text).take(bits.len() as int));
}

/// The bits of the ply at `i` stand behind those of the plies before it.
proof fn lemma_ply_found(stem: EntryModel, plies: Seq<EntryModel>, bits: Seq<bool>, i: int)
    requires
        0 <= i < plies.len() <= u16::MAX,
        ply_list(stem, plies).bits.is_prefix_of(bits),
    ensures
        ({
            let now = ply_list(stem, plies.take(i));
            let then = ply_list(stem, plies.take(i + 1));
            let ply = ply_bits(plies[i].pos, ply_of(plies[i]), now.last_score, now.last_draw);
            let o = now.bits.len() as int;
            &&& then == now.with_ply(plies[i].pos, ply_of(plies[i]))
            &&& then.bits.len() == o + ply.len()
            &&& o + ply.len() <= bits.len()
            &&& bits.subrange(o, o + ply.len()) == ply
        }),
{
    let e = plies[i];
    let whole = ply_list(stem, plies).bits;
    let now = ply_list(stem, plies.take(i));
    let then = ply_list(stem, plies.take(i + 1));
    let ply = ply_bits(e.pos, ply_of(e), now.last_score, now.last_draw);
    let o = now.bits.len() as int;
    assert(plies.take(i + 1).drop_last() =~= plies.take(i));
    assert(plies.take(i + 1).last() == e);
    lemma_list_prefix(stem, plies, i + 1);
    assert(then.bits == now.bits + ply);
    assert forall|k: int| 0 <= k < ply.len() implies bits[o + k] == #[trigger] ply[k] by {
        assert(bits[o + k] == bits.take(whole.len() as int)[o + k]);
        assert(whole[o + k] == whole.take(then.bits.len() as int)[o + k]);
        assert(then.bits[o + k] == ply[k]);
    }
    assert(bits.subrange(o, o + ply.len()) =~= ply);
}

/// The next entry of a reader of plies.
#[verifier::opaque]
spec fn list_step(list: MoveListModel, bits: Seq<bool>) -> Option<(EntryModel, MoveListModel)> {
    list.next(bits)
}

/// A reader of plies that finds the ply of an entry which follows the last one returns that entry.
proof fn lemma_list_step(list: MoveListModel, bits: Seq<bool>, e: EntryModel)
    requires
        list.has_next(),
        follows(list.entry, e),
        ({
            let n = ply_bits(e.pos, ply_of(e), list.last_score, list.last_draw).len();
            &&& list.pos + n <= bits.len()
            &&& bits.subrange(list.pos as int, (list.pos + n) as int) == ply_bits(
                e.pos,
                ply_of(e),
                list.last_score,
                list.last_draw,
            )
        }),
    ensures
        list_step(list, bits) == Some(
            (
                e,
                MoveListModel {
                    entry: e,
                    num_plies: list.num_plies,
                    num_read: (list.num_read + 1) as u16,
                    pos: list.pos + ply_bits(
                        e.pos,
                        ply_of(e),
                        list.last_score,
                        list.last_draw,
                    ).len(),
                    last_score: wrapping_negation(e.score),
                    last_draw: e.draw_score,
                },
            ),
        ),
{
    reveal(list_step);
    reveal(follows);
    law_ply_round_trip(
        e.pos,
        ply_of(e),
        list.last_score,
        list.last_draw,
        bits,
        list.pos as int,
    );
    let (next, behind) = list.next(bits)->0;
    assert(next =~= e);
}

/// The reader of the plies of `c` after `i` of them.
spec fn list_at(c: Chain, i: int) -> MoveListModel {
    let list = ply_list(c.stem, c.plies.take(i));
    MoveListModel {
        entry: c.before(i),
        num_plies: c.plies.len() as u16,
        num_read: i as u16,
        pos: list.bits.len(),
        last_score: list.last_score,
        last_draw: list.last_draw,
    }
}

/// The number of bytes of the text of a chain.
spec fn text_len(c: Chain) -> nat {
    bytes_for(ply_list(c.stem, c.plies).bits.len())
}

/// Whether the text of `c` stands in `chunk` at `offset`.
spec fn text_at(c: Chain, chunk: Seq<u8>, offset: nat) -> bool {
    &&& offset + text_len(c) <= chunk.len()
    &&& chunk.subrange(offset as int, (offset + text_len(c)) as int) == bytes_of(
        ply_list(c.stem, c.plies).bits,
    )
}

/// The place among the plies of `c`, whose text is at `offset`, after `i` of them.
spec fn place_in(c: Chain, offset: nat, i: int) -> ChunkReaderModel {
    ChunkReaderModel { movelist: Some(list_at(c, i)), offset, is_end: false }
}

/// Each ply of a chain is read back from the bits of its text.
proof fn lemma_ply_read(c: Chain, bits: Seq<bool>, i: int)
    requires
        c.valid(),
        0 <= i < c.plies.len(),
        ply_list(c.stem, c.plies).bits.is_prefix_of(bits),
    ensures
        list_step(list_at(c, i), bits) == Some((c.plies[i], list_at(c, i + 1))),
{
    assert(c.plies.len() <= u16::MAX && c.linked()) by {
        reveal(Chain::valid);
    }
    assert(follows(c.before(i), c.plies[i])) by {
        reveal(Chain::linked);
    }
    lemma_ply_found(c.stem, c.plies, bits, i);
    lemma_list_step(list_at(c, i), bits, c.plies[i]);
}

/// Each ply of a chain is read back from its chunk.
proof fn lemma_ply_step(c: Chain, chunk: Seq<u8>, offset: nat, i: int)
    requires
        c.valid(),
        0 <= i < c.plies.len(),
        text_at(c, chunk, offset),
    ensures
        step(place_in(c, offset, i), chunk) == Some(
            (
                c.plies[i],
                if i + 1 < c.plies.len() {
                    place_in(c, offset, i + 1)
                } else {
                    place_at(offset).between(chunk, offset + text_len(c))
                },
            ),
        ),
{
    reveal(step);
    assert(c.plies.len() <= u16::MAX) by {
        reveal(Chain::valid);
    }
    let text = chunk.skip(offset as int);
    assert(text.take(text_len(c) as int) =~= chunk.subrange(
        offset as int,
        (offset + text_len(c)) as int,
    ));
    lemma_text_bits(text, ply_list(c.stem, c.plies).bits);
    lemma_ply_read(c, bits_of(text), i);
    reveal(list_step);
    assert(c.plies.take(c.plies.len() as int) =~= c.plies);
}

/// The place behind a chain leads to the same entries, whether or not it notes that no further chain
/// follows.
proof fn lemma_between(chunk: Seq<u8>, place: ChunkReaderModel, offset: nat)
    requires
        !place.is_end,
    ensures
        all(place.between(chunk, offset), chunk) == all(place_at(offset), chunk),
{
    lemma_all(place.between(chunk, offset), chunk);
    lemma_all(place_at(offset), chunk);
}

/// The plies of a chain from `i` on are read, and then what follows the chain.
proof fn lemma_plies_read(c: Chain, chunk: Seq<u8>, offset: nat, i: int)
    requires
        c.valid(),
        0 <= i < c.plies.len() <= u16::MAX,
        text_at(c, chunk, offset),
    ensures
        all(place_in(c, offset, i), chunk) == preceded(
            c.plies.skip(i),
            all(place_at(offset + text_len(c)), chunk),
        ),
    decreases c.plies.len() - i,
{
    let end = offset + text_len(c);
    let behind = all(place_at(end), chunk);
    lemma_all(place_in(c, offset, i), chunk);
    lemma_ply_step(c, chunk, offset, i);
    if i + 1 < c.plies.len() {
        lemma_plies_read(c, chunk, offset, i + 1);
        lemma_preceded(seq![c.plies[i]], c.plies.skip(i + 1), behind);
        assert(seq![c.plies[i]] + c.plies.skip(i + 1) =~= c.plies.skip(i));
    } else {
        lemma_between(chunk, place_at(offset), end);
        assert(seq![c.plies[i]] =~= c.plies.skip(i));
    }
}

/// The parts of the bytes of a chain stand one after the other.
proof fn lemma_chain_parts(stem: Seq<u8>, list: PlyListModel, chunk: Seq<u8>, o: int)
    requires
        stem.len() == 34,
        0 <= o,
        o + 36 + bytes_for(list.bits.len()) <= chunk.len(),
        chunk.subrange(o, o + 36 + bytes_for(list.bits.len())) == stem + list_bytes(list),
    ensures
        chunk.subrange(o, o + 34) == stem,
        from_be16(chunk, o + 34) == list.num_plies,
        chunk.subrange(o + 36, o + 36 + bytes_for(list.bits.len())) == bytes_of(list.bits),
{
    let n = bytes_for(list.bits.len());
    let part = chunk.subrange(o, o + 36 + n);
    assert(chunk.subrange(o, o + 34) =~= part.take(34));
    assert(part.take(34) =~= stem);
    assert(chunk[o + 34] == part[34]);
    assert(chunk[o + 35] == part[35]);
    assert(part[34] == be16(list.num_plies)[0]);
    assert(part[35] == be16(list.num_plies)[1]);
    lemma_be16(list.num_plies, chunk, o + 34);
    assert(chunk.subrange(o + 36, o + 36 + n) =~= part.skip(36));
    assert(part.skip(36) =~= bytes_of(list.bits));
}

/// The entry that 34 bytes hold.
#[verifier::opaque]
spec fn stem_read(data: Seq<u8>) -> Option<EntryModel> {
    if ep_marks_inside(position_of_bytes(data)) {
        Some(entry_of_bytes(data))
    } else {
        None
    }
}

/// A place before a stem that holds an entry leads to that entry.
proof fn lemma_place_step(chunk: Seq<u8>, offset: nat, e: EntryModel)
    requires
        stem_fits(chunk, offset),
        stem_read(chunk.subrange(offset as int, offset as int + 34)) == Some(e),
    ensures
        ({
            let n = from_be16(chunk, offset as int + 34);
            step(place_at(offset), chunk) == Some(
                (
                    e,
                    if n > 0 {
                        ChunkReaderModel {
                            movelist: Some(MoveListModel::start(e, n)),
                            offset: offset + 36,
                            is_end: false,
                        }
                    } else {
                        place_at(offset).between(chunk, offset + 36)
                    },
                ),
            )
        }),
{
    reveal(step);
    reveal(stem_read);
}

/// The stem of a chain is read back from its bytes.
proof fn lemma_stem_read(c: Chain)
    requires
        c.valid(),
    ensures
        stem_read(entry_bytes(c.stem)) == Some(c.stem),
        entry_bytes(c.stem).len() == 34,
        c.plies.len() <= u16::MAX,
{
    reveal(Chain::valid);
    reveal(stem_read);
    law_entry_round_trip(c.stem);
    lemma_entry_bytes_len(c.stem);
}

/// The stem of a chain is read back from its chunk.
proof fn lemma_stem_step(c: Chain, chunk: Seq<u8>, offset: nat)
    requires
        c.valid(),
        offset + c.bytes().len() <= chunk.len(),
        chunk.subrange(offset as int, (offset + c.bytes().len()) as int) == c.bytes(),
    ensures
        c.bytes().len() == 36 + text_len(c),
        c.plies.len() <= u16::MAX,
        text_at(c, chunk, offset + 36),
        step(place_at(offset), chunk) == Some(
            (
                c.stem,
                if c.plies.len() > 0 {
                    place_in(c, offset + 36, 0)
                } else {
                    place_at(offset).between(chunk, offset + c.bytes().len())
                },
            ),
        ),
{
    let list = ply_list(c.stem, c.plies);
    lemma_stem_read(c);
    reveal(Chain::bytes);
    lemma_chain_parts(entry_bytes(c.stem), list, chunk, offset as int);
    lemma_place_step(chunk, offset, c.stem);
    lemma_list_prefix(c.stem, c.plies, c.plies.len() as int);
    assert(c.plies.take(c.plies.len() as int) =~= c.plies);
    if c.plies.len() > 0 {
        assert(c.plies.take(0) =~= Seq::empty());
        assert(list_at(c, 0) =~= MoveListModel::start(c.stem, list.num_plies));
    }
}

/// A chain is read, and then what follows it.
proof fn lemma_chain_read(c: Chain, chunk: Seq<u8>, offset: nat)
    requires
        c.valid(),
        offset + c.bytes().len() <= chunk.len(),
        chunk.subrange(offset as int, (offset + c.bytes().len()) as int) == c.bytes(),
    ensures
        all(place_at(offset), chunk) == preceded(
            c.entries(),
            all(place_at(offset + c.bytes().len()), chunk),
        ),
{
    let end = offset + c.bytes().len();
    lemma_stem_step(c, chunk, offset);
    lemma_all(place_at(offset), chunk);
    if c.plies.len() > 0 {
        lemma_plies_read(c, chunk, offset + 36, 0);
        lemma_preceded(seq![c.stem], c.plies, all(place_at(end), chunk));
        assert(c.plies.skip(0) =~= c.plies);
    } else {
        lemma_between(chunk, place_at(offset), end);
        assert(seq![c.stem] =~= c.entries());
    }
}

/// The part behind a beginning of a sequence, and what follows it.
proof fn lemma_part<A>(now: Seq<A>, part: Seq<A>, whole: Seq<A>)
    requires
        (now + part).is_prefix_of(whole),
    ensures
        now.len() + part.len() <= whole.len(),
        whole.subrange(now.len() as int, (now.len() + part.len()) as int) == part,
        part + whole.skip((now.len() + part.len()) as int) == whole.skip(now.len() as int),
{
    let n = (now.len() + part.len()) as int;
    assert(whole.subrange(now.len() as int, n) =~= whole.take(n).skip(now.len() as int));
    assert((now + part).skip(now.len() as int) =~= part);
    assert(part + whole.skip(n) =~= whole.skip(now.len() as int));
}

/// The entries of the chains from `i` on.
spec fn entries_from(chains: Seq<Chain>, i: int) -> Seq<EntryModel> {
    chunk_entries(chains).skip(chunk_entries(chains.take(i)).len() as int)
}

/// The bytes and the entries of some first chains are the beginning of those of all.
proof fn lemma_chunk_prefix(chains: Seq<Chain>, i: int)
    requires
        0 <= i <= chains.len(),
    ensures
        chunk_bytes(chains.take(i)).is_prefix_of(chunk_bytes(chains)),
        chunk_entries(chains.take(i)).is_prefix_of(chunk_entries(chains)),
    decreases chains.len(),
{
    if i == chains.len() {
        assert(chains.take(i) =~= chains);
    } else {
        lemma_chunk_prefix(chains.drop_last(), i);
        assert(chains.drop_last().take(i) =~= chains.take(i));
    }
}

/// The chains of a chunk from `i` on are read.
proof fn lemma_chains_read(chains: Seq<Chain>, i: int)
    requires
        0 <= i <= chains.len(),
        all_valid(chains),
    ensures
        all(place_at(chunk_bytes(chains.take(i)).len()), chunk_bytes(chains)) == Some(
            entries_from(chains, i),
        ),
    decreases chains.len() - i,
{
    let chunk = chunk_bytes(chains);
    let offset = chunk_bytes(chains.take(i)).len();
    lemma_all(place_at(offset), chunk);
    if i == chains.len() {
        assert(chains.take(i) =~= chains);
        assert(entries_from(chains, i) =~= Seq::empty());
    } else {
        let c = chains[i];
        let now = chains.take(i);
        let then = chains.take(i + 1);
        assert(then.drop_last() =~= now);
        assert(then.last() == c);
        lemma_chunk_prefix(chains, i + 1);
        lemma_part(chunk_bytes(now), c.bytes(), chunk);
        lemma_part(chunk_entries(now), c.entries(), chunk_entries(chains));
        lemma_chain_read(c, chunk, offset);
        lemma_chains_read(chains, i + 1);
    }
}

/// The chains of a chunk are read.
proof fn lemma_chunk_entries(chains: Seq<Chain>)
    requires
        all_valid(chains),
    ensures
        all(ChunkReaderModel::start(), chunk_bytes(chains)) == Some(chunk_entries(chains)),
{
    lemma_chains_read(chains, 0);
    assert(chains.take(0) =~= Seq::empty());
    assert(entries_from(chains, 0) =~= chunk_entries(chains));
}

/// The entries of a chunk are those of the chains that it is made of.
pub proof fn law_chunk_round_trip(chains: Seq<Chain>)
    requires
        all_valid(chains),
    ensures
        entries_of_chunk(chunk_bytes(chains)) == Some(chunk_entries(chains)),
{
    reveal(all);
    lemma_chunk_entries(chains);
}

/// Whether the next entry at `place` belongs to the chain of the last one.
pub open spec fn within_chain(place: ChunkReaderModel) -> bool {
    place.movelist is Some && place.movelist->0.num_read < place.movelist->0.num_plies
}

/// For each entry of `chunk` from `place` on, whether it was said to belong to the chain of the one
/// before it.
pub open spec fn marks(place: ChunkReaderModel, chunk: Seq<u8>) -> Seq<bool>
    decreases place.bytes_left(chunk), place.plies_left(),
{
    if !place.has_next(chunk) {
        Seq::empty()
    } else {
        match place.next(chunk) {
            None => Seq::empty(),
            Some((entry, next)) => seq![within_chain(place)] + marks(next, chunk),
        }
    }
}

/// For each entry of `chains`, whether it is not a stem.
pub open spec fn chain_marks(chains: Seq<Chain>) -> Seq<bool>
    decreases chains.len(),
{
    if chains.len() == 0 {
        Seq::empty()
    } else {
        chain_marks(chains.drop_last()) + seq![false] + Seq::new(
            chains.last().plies.len(),
            |i: int| true,
        )
    }
}

/// The marks from `place` on.
#[verifier::opaque]
spec fn all_marks(place: ChunkReaderModel, chunk: Seq<u8>) -> Seq<bool> {
    marks(place, chunk)
}

/// The marks from a place on are that of the next entry and those behind it.
proof fn lemma_all_marks(place: ChunkReaderModel, chunk: Seq<u8>)
    ensures
        !place.has_next(chunk) ==> all_marks(place, chunk) == Seq::<bool>::empty(),
        place.has_next(chunk) ==> all_marks(place, chunk) == match step(place, chunk) {
            None => Seq::empty(),
            Some((e, next)) => seq![within_chain(place)] + all_marks(next, chunk),
        },
{
    reveal(step);
    reveal(all_marks);
}

/// The place behind a chain leads to the same marks, whether or not it notes that no further chain
/// follows.
proof fn lemma_between_marks(chunk: Seq<u8>, place: ChunkReaderModel, offset: nat)
    requires
        !place.is_end,
    ensures
        all_marks(place.between(chunk, offset), chunk) == all_marks(place_at(offset), chunk),
{
    lemma_all_marks(place.between(chunk, offset), chunk);
    lemma_all_marks(place_at(offset), chunk);
}

/// The marks of the plies of a chain from `i` on, and then of what follows the chain.
proof fn lemma_plies_marks(c: Chain, chunk: Seq<u8>, offset: nat, i: int)
    requires
        c.valid(),
        0 <= i < c.plies.len() <= u16::MAX,
        text_at(c, chunk, offset),
    ensures
        all_marks(place_in(c, offset, i), chunk) == Seq::new(
            (c.plies.len() - i) as nat,
            |k: int| true,
        ) + all_marks(place_at(offset + text_len(c)), chunk),
    decreases c.plies.len() - i,
{
    let end = offset + text_len(c);
    let behind = all_marks(place_at(end), chunk);
    let now = all_marks(place_in(c, offset, i), chunk);
    lemma_all_marks(place_in(c, offset, i), chunk);
    lemma_ply_step(c, chunk, offset, i);
    if i + 1 < c.plies.len() {
        lemma_plies_marks(c, chunk, offset, i + 1);
    } else {
        lemma_between_marks(chunk, place_at(offset), end);
    }
    assert(now =~= Seq::new((c.plies.len() - i) as nat, |k: int| true) + behind);
}

/// The marks of the chains of a chunk from `i` on.
proof fn lemma_chains_marks(chains: Seq<Chain>, i: int)
    requires
        0 <= i <= chains.len(),
        all_valid(chains),
    ensures
        chain_marks(chains.take(i)) + all_marks(
            place_at(chunk_bytes(chains.take(i)).len()),
            chunk_bytes(chains),
        ) == chain_marks(chains),
    decreases chains.len() - i,
{
    let chunk = chunk_bytes(chains);
    let offset = chunk_bytes(chains.take(i)).len();
    lemma_all_marks(place_at(offset), chunk);
    if i == chains.len() {
        assert(chains.take(i) =~= chains);
        assert(chain_marks(chains) + Seq::<bool>::empty() =~= chain_marks(chains));
    } else {
        let c = chains[i];
        let now = chains.take(i);
        let then = chains.take(i + 1);
        assert(then.drop_last() =~= now);
        assert(then.last() == c);
        lemma_chunk_prefix(chains, i + 1);
        lemma_part(chunk_bytes(now), c.bytes(), chunk);
        lemma_stem_step(c, chunk, offset);
        let end = offset + c.bytes().len();
        let behind = all_marks(place_at(end), chunk);
        if c.plies.len() > 0 {
            lemma_plies_marks(c, chunk, offset + 36, 0);
        } else {
            lemma_between_marks(chunk, place_at(offset), end);
        }
        lemma_chains_marks(chains, i + 1);
        assert(chain_marks(now) + all_marks(place_at(offset), chunk) =~= chain_marks(then) + behind);
    }
}

/// As a chunk is read entry after entry, exactly those are said to belong to the chain of the one
/// before that are not stems.
pub proof fn law_chunk_marks(chains: Seq<Chain>)
    requires
        all_valid(chains),
    ensures
        marks(ChunkReaderModel::start(), chunk_bytes(chains)) == chain_marks(chains),
{
    reveal(all_marks);
    lemma_chains_marks(chains, 0);
    assert(chains.take(0) =~= Seq::empty());
    assert(chain_marks(chains.take(0)) + all_marks(
        ChunkReaderModel::start(),
        chunk_bytes(chains),
    ) =~= all_marks(ChunkReaderModel::start(), chunk_bytes(chains)));
}

/// The bytes and the entries of some first chunks are the beginning of those of all.
pub proof fn lemma_file_prefix(chunks: Seq<Seq<Chain>>, i: int)
    requires
        0 <= i <= chunks.len(),
    ensures
        file_bytes(chunks.take(i)).is_prefix_of(file_bytes(chunks)),
        file_entries(chunks.take(i)).is_prefix_of(file_entries(chunks)),
    decreases chunks.len(),
{
    if i == chunks.len() {
        assert(chunks.take(i) =~= chunks);
    } else {
        lemma_file_prefix(chunks.drop_last(), i);
        assert(chunks.drop_last().take(i) =~= chunks.take(i));
    }
}

/// The entries of a file.
#[verifier::opaque]
spec fn file_all(data: Seq<u8>, pos: nat) -> Option<Seq<EntryModel>> {
    entries_of_file(data, pos)
}

/// The entries of a chunk.
#[verifier::opaque]
spec fn chunk_all(chunk: Seq<u8>) -> Option<Seq<EntryModel>> {
    entries_of_chunk(chunk)
}

/// The entries of a file are those of its first chunk and those behind it.
proof fn lemma_file_all(data: Seq<u8>, pos: nat)
    ensures
        file_all(data, pos) == match next_frame(data, pos) {
            Err(_) => None,
            Ok(None) => Some(Seq::<EntryModel>::empty()),
            Ok(Some(chunk)) => joined(chunk_all(chunk), file_all(data, pos + 8 + chunk.len())),
        },
{
    reveal(file_all);
    reveal(chunk_all);
}

/// A chunk of a file is read, and then what follows it.
proof fn lemma_chunk_read(first: Seq<u8>, chunk: Seq<u8>, behind: Seq<u8>, entries: Seq<EntryModel>)
    requires
        chunk.len() <= u32::MAX,
        all(ChunkReaderModel::start(), chunk) == Some(entries),
    ensures
        file_all(first + frame(chunk) + behind, first.len()) == preceded(
            entries,
            file_all(first + frame(chunk) + behind, first.len() + frame(chunk).len()),
        ),
{
    let data = first + frame(chunk) + behind;
    law_frame_round_trip(first, chunk, behind);
    assert(next_frame(data, first.len()) == Ok::<_, BinpackError>(Some(chunk)));
    assert(frame(chunk).len() == 8 + chunk.len());
    assert(chunk_all(chunk) == Some(entries)) by {
        reveal(all);
        reveal(chunk_all);
    }
    lemma_file_all(data, first.len());
}

/// The chunks of a file from `i` on are read.
proof fn lemma_chunks_read(before: Seq<u8>, chunks: Seq<Seq<Chain>>, i: int)
    requires
        0 <= i <= chunks.len(),
        forall|j: int| 0 <= j < chunks.len() ==> chunk_valid(#[trigger] chunks[j]),
    ensures
        file_all(
            before + file_bytes(chunks),
            before.len() + file_bytes(chunks.take(i)).len(),
        ) == Some(file_entries(chunks).skip(file_entries(chunks.take(i)).len() as int)),
    decreases chunks.len() - i,
{
    let whole = file_bytes(chunks);
    let entries = file_entries(chunks);
    if i == chunks.len() {
        reveal(file_all);
        assert(chunks.take(i) =~= chunks);
        assert(entries.skip(entries.len() as int) =~= Seq::empty());
    } else {
        let chains = chunks[i];
        let part = frame(chunk_bytes(chains));
        let now = file_bytes(chunks.take(i));
        let then = file_bytes(chunks.take(i + 1));
        assert(chunks.take(i + 1).drop_last() =~= chunks.take(i));
        assert(chunks.take(i + 1).last() == chains);
        lemma_file_prefix(chunks, i + 1);
        lemma_part(now, part, whole);
        lemma_part(file_entries(chunks.take(i)), chunk_entries(chains), entries);
        let behind = whole.skip(then.len() as int);
        assert(whole =~= now + (part + behind)) by {
            assert(now =~= whole.take(now.len() as int)) by {
                assert(now =~= then.take(now.len() as int));
            }
        }
        assert(before + whole =~= before + now + part + behind);
        lemma_chunk_entries(chains);
        lemma_chunk_read(before + now, chunk_bytes(chains), behind, chunk_entries(chains));
        lemma_chunks_read(before, chunks, i + 1);
    }
}

/// The entries of a file are those of the chunks that it is made of, whatever stands before them.
pub proof fn law_file_round_trip(before: Seq<u8>, chunks: Seq<Seq<Chain>>)
    requires
        forall|j: int| 0 <= j < chunks.len() ==> chunk_valid(#[trigger] chunks[j]),
    ensures
        entries_of_file(before + file_bytes(chunks), before.len()) == Some(file_entries(chunks)),
{
    reveal(file_all);
    lemma_chunks_read(before, chunks, 0);
    assert(chunks.take(0) =~= Seq::empty());
    assert(file_entries(chunks).skip(0) =~= file_entries(chunks));
}

/// A frame is found behind something as it is found without it.
proof fn lemma_frame_shifted(before: Seq<u8>, data: Seq<u8>, pos: nat)
    ensures
        next_frame(before + data, before.len() + pos) == next_frame(data, pos),
{
    let all = before + data;
    let p = (before.len() + pos) as int;
    if pos + 8 <= data.len() {
        assert(all.subrange(p, p + 8) =~= data.subrange(pos as int, pos as int + 8));
        if let Ok(size) = size_of_header(data.subrange(pos as int, pos as int + 8)) {
            if pos + 8 + size <= data.len() {
                assert(all.subrange(p + 8, p + 8 + size) =~= data.subrange(
                    pos as int + 8,
                    pos as int + 8 + size,
                ));
            }
        }
    }
}

/// A frame is found before something as it is found without it.
proof fn lemma_frame_followed(data: Seq<u8>, behind: Seq<u8>, pos: nat)
    requires
        next_frame(data, pos) is Ok,
        pos < data.len(),
    ensures
        next_frame(data + behind, pos) == next_frame(data, pos),
        next_frame(data, pos)->Ok_0 is Some,
        pos + 8 + next_frame(data, pos)->Ok_0->0.len() <= data.len(),
{
    let all = data + behind;
    let p = pos as int;
    assert(all.subrange(p, p + 8) =~= data.subrange(p, p + 8));
    let size = size_of_header(data.subrange(p, p + 8))->Ok_0;
    assert(all.subrange(p + 8, p + 8 + size) =~= data.subrange(p + 8, p + 8 + size));
}

/// The entries of a file do not depend on what stands before it.
proof fn lemma_file_shifted(before: Seq<u8>, data: Seq<u8>, pos: nat)
    ensures
        file_all(before + data, before.len() + pos) == file_all(data, pos),
    decreases data.len() - pos,
{
    lemma_file_all(before + data, before.len() + pos);
    lemma_file_all(data, pos);
    lemma_frame_shifted(before, data, pos);
    if let Ok(Some(chunk)) = next_frame(data, pos) {
        lemma_file_shifted(before, data, pos + 8 + chunk.len());
    }
}

/// The entries of a file are followed by those of what stands behind it.
proof fn lemma_file_followed(data: Seq<u8>, behind: Seq<u8>, pos: nat)
    requires
        pos <= data.len(),
        file_all(data, pos) is Some,
    ensures
        file_all(data + behind, pos) == preceded(
            file_all(data, pos)->0,
            file_all(data + behind, data.len()),
        ),
    decreases data.len() - pos,
{
    let rest = file_all(data + behind, data.len());
    lemma_file_all(data, pos);
    if pos == data.len() {
        if let Some(entries) = rest {
            assert(Seq::<EntryModel>::empty() + entries =~= entries);
        }
    } else {
        lemma_frame_followed(data, behind, pos);
        lemma_file_all(data + behind, pos);
        let chunk = next_frame(data, pos)->Ok_0->0;
        let next = pos + 8 + chunk.len();
        lemma_file_followed(data, behind, next);
        lemma_preceded(chunk_all(chunk)->0, file_all(data, next)->0, rest);
    }
}

/// The entries of a file from `pos` on are followed by those of what stands behind it.
pub proof fn law_file_followed(data: Seq<u8>, behind: Seq<u8>, pos: nat)
    requires
        pos <= data.len(),
        entries_of_file(data, pos) is Some,
        entries_of_file(data + behind, data.len()) is Some,
    ensures
        entries_of_file(data + behind, pos) == Some(
            entries_of_file(data, pos)->0 + entries_of_file(data + behind, data.len())->0,
        ),
{
    reveal(file_all);
    lemma_file_followed(data, behind, pos);
}

/// Two files, one behind the other, are a file with the entries of both.
pub proof fn law_files_joined(first: Seq<u8>, second: Seq<u8>)
    requires
        entries_of_file(first, 0) is Some,
        entries_of_file(second, 0) is Some,
    ensures
        entries_of_file(first + second, 0) == Some(
            entries_of_file(first, 0)->0 + entries_of_file(second, 0)->0,
        ),
{
    reveal(file_all);
    lemma_file_followed(first, second, 0);
    lemma_file_shifted(first, second, 0);
}

/// The entries of a reader.
#[verifier::opaque]
spec fn reader_all(r: ReaderModel) -> Option<Seq<EntryModel>> {
    r.rest()
}

/// The entries of a reader are the next one and those behind it.
proof fn lemma_reader_all(r: ReaderModel)
    ensures
        !r.has_next() ==> reader_all(r) == Some(Seq::<EntryModel>::empty()),
        r.has_next() ==> reader_all(r) == match reader_step(r) {
            None => None,
            Some((e, next)) => preceded(seq![e], reader_all(next)),
        },
{
    reveal(reader_step);
    reveal(reader_all);
}

/// After each entry fewer bytes or fewer plies of the chunk are left.
proof fn lemma_step_decreases(place: ChunkReaderModel, chunk: Seq<u8>)
    requires
        place.has_next(chunk),
    ensures
        step(place, chunk) matches Some((e, next)) ==> {
            ||| 0 <= next.bytes_left(chunk) < place.bytes_left(chunk)
            ||| {
                &&& next.bytes_left(chunk) == place.bytes_left(chunk)
                &&& 0 <= next.plies_left() < place.plies_left()
            }
        },
{
    reveal(step);
}

/// The entries of a chunk are those from its first place on.
proof fn lemma_chunk_all(chunk: Seq<u8>)
    ensures
        chunk_all(chunk) == all(ChunkReaderModel::start(), chunk),
{
    reveal(all);
    reveal(chunk_all);
}

/// A file in which no chunk can hold an entry holds none.
proof fn lemma_no_entry_ahead(data: Seq<u8>, pos: nat)
    requires
        !entry_ahead(data, pos),
    ensures
        file_all(data, pos) == Some(Seq::<EntryModel>::empty()),
    decreases data.len() - pos,
{
    lemma_file_all(data, pos);
    if let Ok(Some(chunk)) = next_frame(data, pos) {
        lemma_chunk_all(chunk);
        lemma_all(ChunkReaderModel::start(), chunk);
        lemma_no_entry_ahead(data, pos + 8 + chunk.len());
        assert(Seq::<EntryModel>::empty() + Seq::<EntryModel>::empty() =~= Seq::<
            EntryModel,
        >::empty());
    }
}

/// Nothing before something is that.
proof fn lemma_joined_empty(behind: Option<Seq<EntryModel>>)
    ensures
        joined(Some(Seq::empty()), behind) == behind,
{
    if let Some(b) = behind {
        assert(Seq::<EntryModel>::empty() + b =~= b);
    }
}

/// A reader without an entry at hand reads what it reads from the next chunk on.
proof fn lemma_reader_passes(r: ReaderModel, chunk: Seq<u8>)
    requires
        !r.at_hand(),
        r.file is Some,
        r.has_next(),
        r.file->0.next_chunk() == Ok::<_, BinpackError>(Some(chunk)),
    ensures
        reader_all(r) == reader_all(r.loaded(chunk)),
{
    let q = r.loaded(chunk);
    lemma_reader_all(r);
    lemma_reader_all(q);
    lemma_reader_step(r);
    lemma_reader_step(q);
}

/// A reader reads the entries of its chunk, and then those of its file.
proof fn lemma_reader_rest(r: ReaderModel)
    requires
        r.file is Some,
    ensures
        reader_all(r) == joined(all(r.place, r.chunk), file_all(r.file->0.data, r.file->0.pos)),
    decreases r.file_left(), r.place.bytes_left(r.chunk), r.place.plies_left(), 0int,
{
    let f = r.file->0;
    let behind = file_all(f.data, f.pos);
    lemma_reader_all(r);
    lemma_all(r.place, r.chunk);
    if !r.at_hand() {
        lemma_joined_empty(behind);
        if !r.has_next() {
            lemma_no_entry_ahead(f.data, f.pos);
        } else {
            lemma_file_all(f.data, f.pos);
            if let Ok(Some(chunk)) = f.next_chunk() {
                lemma_reader_passes(r, chunk);
                lemma_chunk_all(chunk);
                lemma_reader_rest(r.loaded(chunk));
            } else {
                lemma_reader_step(r);
            }
        }
    } else {
        lemma_reader_step(r);
        lemma_step_decreases(r.place, r.chunk);
        if let Some((e, place)) = step(r.place, r.chunk) {
            lemma_reader_taken(r, e, place);
        }
    }
}

/// The same for a reader whose next entry and the place behind it are known.
proof fn lemma_reader_taken(r: ReaderModel, e: EntryModel, place: ChunkReaderModel)
    requires
        r.file is Some,
        r.at_hand(),
        step(r.place, r.chunk) == Some((e, place)),
        ({
            ||| 0 <= place.bytes_left(r.chunk) < r.place.bytes_left(r.chunk)
            ||| {
                &&& place.bytes_left(r.chunk) == r.place.bytes_left(r.chunk)
                &&& 0 <= place.plies_left() < r.place.plies_left()
            }
        }),
    ensures
        reader_all(r) == joined(all(r.place, r.chunk), file_all(r.file->0.data, r.file->0.pos)),
    decreases r.file_left(), place.bytes_left(r.chunk), place.plies_left(), 1int,
{
    let f = r.file->0;
    let behind = file_all(f.data, f.pos);
    let r1 = ReaderModel { place, ..r };
    lemma_reader_all(r);
    lemma_reader_step(r);
    lemma_all(r.place, r.chunk);
    lemma_all(place, r.chunk);
    if r1.at_hand() {
        lemma_reader_rest(r1);
        if all(place, r.chunk) is Some && behind is Some {
            let rest = all(place, r.chunk)->0;
            assert(seq![e] + (rest + behind->0) =~= (seq![e] + rest) + behind->0);
        }
    } else {
        assert(seq![e] + Seq::<EntryModel>::empty() =~= seq![e]);
        lemma_file_all(f.data, f.pos);
        if let Ok(Some(chunk)) = f.next_chunk() {
            lemma_chunk_all(chunk);
            lemma_reader_rest(r1.loaded(chunk));
        } else {
            lemma_reader_all(r1);
        }
    }
}

/// A reader that has its file returns the entries that are left of its chunk, and then those of the
/// further chunks of its file.
pub proof fn law_reader_rest(r: ReaderModel)
    requires
        r.file is Some,
    ensures
        r.rest() == joined(
            r.place.rest(r.chunk),
            entries_of_file(r.file->0.data, r.file->0.pos),
        ),
{
    lemma_reader_rest(r);
    reveal(reader_all);
    reveal(all);
    reveal(file_all);
}

/// A reader that has been opened on a file returns the entries of its chunks, one chunk after the
/// other.
pub proof fn law_reader_reads_file(f: FileModel)
    ensures
        match ReaderModel::open(f) {
            Ok(r) => r.rest() == entries_of_file(f.data, f.pos),
            Err(CompressedReaderError::EndOfFile) => entries_of_file(f.data, f.pos) == Some(
                Seq::<EntryModel>::empty(),
            ),
            Err(_) => entries_of_file(f.data, f.pos) is None,
        },
{
    reveal(file_all);
    reveal(reader_all);
    lemma_file_all(f.data, f.pos);
    if let Ok(r) = ReaderModel::open(f) {
        lemma_chunk_all(r.chunk);
        lemma_reader_rest(r);
    }
}

/// A reader that has no further entry has no entry left in its file.
pub proof fn law_end_leaves_no_entry(r: ReaderModel)
    requires
        r.file is Some,
        !r.has_next(),
    ensures
        entries_of_file(r.file->0.data, r.file->0.pos) == Some(Seq::<EntryModel>::empty()),
{
    reveal(file_all);
    lemma_no_entry_ahead(r.file->0.data, r.file->0.pos);
}

} // verus!
