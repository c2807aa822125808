//! What has been written is read back.
use vstd::prelude::*;

use crate::common::chain::{
    all_formed, all_valid, chunk_bytes, chunk_entries, chunk_valid, entries_of_file, file_bytes,
    file_entries, follows, law_file_followed, law_file_round_trip, law_files_joined,
    law_reader_reads_file, lemma_file_prefix, list_bytes, ply_list, ply_of, Chain,
};
use crate::common::compressed_training_file_reader::FileModel;
use crate::common::entry::{
    entry_bytes, entry_storable, lemma_entry_bytes_len, packable_entry, EntryModel,
};
use crate::common::frame::{frame, magic};
use crate::reader::compressed_reader::ReaderModel;
use crate::writer::compressed_writer::WriterModel;
use crate::writer::entry_packer::{PackerModel, MAX_MOVELIST_SIZE, SUGGESTED_CHUNK_SIZE};
use crate::writer::move_score_list::PlyListModel;

verus! {

/// The writer `w` after `entries`.
pub open spec fn written(w: WriterModel, entries: Seq<EntryModel>) -> WriterModel
    decreases entries.len(),
{
    if entries.len() == 0 {
        w
    } else {
        written(w, entries.drop_last()).with_entry(entries.last())
    }
}

/// Whether the writer `w` can write `entries`.
pub open spec fn accepted(w: WriterModel, entries: Seq<EntryModel>) -> bool
    decreases entries.len(),
{
    entries.len() == 0 || {
        &&& accepted(w, entries.drop_last())
        &&& written(w, entries.drop_last()).accepts(entries.last())
    }
}

/// Whether the writer `w` can write `entries`, and each entry that does not continue the one before
/// it can be told from its stored form.
pub open spec fn writable(w: WriterModel, entries: Seq<EntryModel>) -> bool
    decreases entries.len(),
{
    entries.len() == 0 || {
        let before = written(w, entries.drop_last());
        let e = entries.last();
        &&& writable(w, entries.drop_last())
        &&& before.accepts(e)
        &&& before.packer.last.is_continued_by(e) || entry_storable(e)
    }
}

/// Entries that can be written and told from their stored form can be written.
proof fn lemma_accepted(w: WriterModel, entries: Seq<EntryModel>)
    requires
        writable(w, entries),
    ensures
        accepted(w, entries),
    decreases entries.len(),
{
    if entries.len() > 0 {
        lemma_accepted(w, entries.drop_last());
    }
}

/// The bytes of the file to whose end `entries` have been written, `before` being what was in it.
pub open spec fn bytes_written(before: Seq<u8>, entries: Seq<EntryModel>) -> Seq<u8> {
    written(WriterModel::start(before), entries).flushed().file->0
}

/// Whether each of `chunks` has the size that makes a writer end it: at least the suggested one, and
/// no more than there is room for.
pub open spec fn full_chunks(chunks: Seq<Seq<Chain>>) -> bool {
    forall|j: int|
        0 <= j < chunks.len() ==> {
            &&& SUGGESTED_CHUNK_SIZE <= chunk_bytes(#[trigger] chunks[j]).len()
            &&& chunk_bytes(chunks[j]).len() <= SUGGESTED_CHUNK_SIZE + MAX_MOVELIST_SIZE
        }
}

/// Whether `e` does not continue `last`.
#[verifier::opaque]
pub open spec fn starts_anew(last: EntryModel, e: EntryModel) -> bool {
    !last.is_continued_by(e)
}

/// Whether each chain is as long as it can be: the stem of the next one does not continue it.
#[verifier::opaque]
pub open spec fn maximal(chains: Seq<Chain>) -> bool {
    forall|i: int|
        0 < i < chains.len() ==> starts_anew(
            chains[i - 1].last_entry(),
            (#[trigger] chains[i]).stem,
        )
}

/// The chains of a sequence of chunks.
pub open spec fn all_chains(chunks: Seq<Seq<Chain>>) -> Seq<Chain>
    decreases chunks.len(),
{
    if chunks.len() == 0 {
        Seq::empty()
    } else {
        all_chains(chunks.drop_last()) + chunks.last()
    }
}

/// Whether all of `chains` have a stored form, from which they can be told if `strict` holds.
#[verifier::opaque]
spec fn all_ok(chains: Seq<Chain>, strict: bool) -> bool {
    all_formed(chains) && (strict ==> all_valid(chains))
}

/// Whether all of `chunks` are made of such chains.
spec fn chunks_ok(chunks: Seq<Seq<Chain>>, strict: bool) -> bool {
    forall|j: int| 0 <= j < chunks.len() ==> all_ok(#[trigger] chunks[j], strict)
}

/// How the state of a writer is made up: the chunks in the file, the ended chains of the current
/// chunk, and the current chain.
struct Shape {
    chunks: Seq<Seq<Chain>>,
    closed: Seq<Chain>,
    current: Chain,
}

impl Shape {
    /// The entries that have been written.
    spec fn entries(self) -> Seq<EntryModel> {
        file_entries(self.chunks) + chunk_entries(self.closed) + self.current.entries()
    }

    /// The chains that have been written.
    spec fn chains(self) -> Seq<Chain> {
        all_chains(self.chunks) + self.ended()
    }

    /// Whether all parts have a stored form, from which they can be told if `strict` holds, and no
    /// chain could be longer.
    spec fn valid(self, strict: bool) -> bool {
        &&& chunks_ok(self.chunks, strict)
        &&& full_chunks(self.chunks)
        &&& all_ok(self.closed, strict)
        &&& self.current.formed()
        &&& strict ==> self.current.valid()
        &&& maximal(self.chains())
    }

    /// Whether `w` is the state of a writer to the end of `before`.
    spec fn is_of(self, before: Seq<u8>, w: WriterModel) -> bool {
        &&& w.file == Some(before + file_bytes(self.chunks))
        &&& w.packer.packed == chunk_bytes(self.closed) + entry_bytes(self.current.stem)
        &&& w.packer.list == ply_list(self.current.stem, self.current.plies)
        &&& w.packer.last == self.current.last_entry()
        &&& !w.packer.is_first
    }

    /// With a further ply.
    spec fn with_ply(self, e: EntryModel) -> Shape {
        Shape {
            current: Chain { plies: self.current.plies.push(e), ..self.current },
            ..self
        }
    }

    /// With the current chain ended.
    spec fn ended(self) -> Seq<Chain> {
        self.closed.push(self.current)
    }

    /// With the current chunk in the file.
    spec fn all_chunks(self) -> Seq<Seq<Chain>> {
        self.chunks.push(self.ended())
    }
}

/// The chain of a single entry.
spec fn single(e: EntryModel) -> Chain {
    Chain { stem: e, plies: Seq::empty() }
}

/// A chain of a single entry has a stored form or can be told from it as the entry does.
proof fn lemma_single(e: EntryModel)
    requires
        packable_entry(e),
    ensures
        single(e).formed(),
        entry_storable(e) ==> single(e).valid(),
        single(e).entries() == seq![e],
        ply_list(e, single(e).plies) == PlyListModel::start(e),
{
    reveal(Chain::formed);
    reveal(Chain::valid);
    reveal(Chain::linked);
    assert(single(e).entries() =~= seq![e]);
}

/// A chain with a further ply has a stored form or can be told from it as it could before.
proof fn lemma_longer(c: Chain, e: EntryModel)
    requires
        c.formed(),
        follows(c.before(c.plies.len() as int), e),
        c.plies.len() < u16::MAX,
    ensures
        (Chain { plies: c.plies.push(e), ..c }).formed(),
        c.valid() ==> (Chain { plies: c.plies.push(e), ..c }).valid(),
        (Chain { plies: c.plies.push(e), ..c }).entries() == c.entries().push(e),
        ply_list(c.stem, c.plies.push(e)) == ply_list(c.stem, c.plies).with_ply(e.pos, ply_of(e)),
{
    let longer = Chain { plies: c.plies.push(e), ..c };
    assert(c.linked()) by {
        reveal(Chain::formed);
    }
    assert(longer.linked()) by {
        reveal(Chain::linked);
        assert forall|i: int|
            #![trigger longer.plies[i]]
            0 <= i < longer.plies.len() implies follows(longer.before(i), longer.plies[i]) by {
            if i < c.plies.len() {
                assert(follows(c.before(i), c.plies[i]));
            }
        }
    }
    assert(longer.formed()) by {
        reveal(Chain::formed);
    }
    assert(c.valid() ==> longer.valid()) by {
        reveal(Chain::valid);
    }
    assert(longer.entries() =~= c.entries().push(e));
    assert(c.plies.push(e).drop_last() =~= c.plies);
}

/// The bytes of a chunk with one more chain.
proof fn lemma_ended(closed: Seq<Chain>, c: Chain)
    ensures
        chunk_bytes(closed.push(c)) == chunk_bytes(closed) + entry_bytes(c.stem) + list_bytes(
            ply_list(c.stem, c.plies),
        ),
        chunk_entries(closed.push(c)) == chunk_entries(closed) + c.entries(),
{
    reveal(Chain::bytes);
    assert(closed.push(c).drop_last() =~= closed);
    assert(chunk_bytes(closed.push(c)) =~= chunk_bytes(closed) + entry_bytes(c.stem) + list_bytes(
        ply_list(c.stem, c.plies),
    ));
}

/// A list of plies has as many plies as were added.
proof fn lemma_list_len(stem: EntryModel, plies: Seq<EntryModel>)
    requires
        plies.len() <= u16::MAX,
    ensures
        ply_list(stem, plies).num_plies == plies.len(),
    decreases plies.len(),
{
    if plies.len() > 0 {
        lemma_list_len(stem, plies.drop_last());
    }
}

/// Chains that have a stored form, and one more.
proof fn lemma_all_ok(chains: Seq<Chain>, c: Chain, strict: bool)
    requires
        c.formed(),
        strict ==> c.valid(),
    ensures
        all_ok(Seq::empty(), strict),
        all_ok(chains, strict) ==> all_ok(chains.push(c), strict),
{
    reveal(all_ok);
}

/// The chunks of the file once the current chunk is in it.
proof fn lemma_all_chunks(s: Shape, strict: bool)
    requires
        s.valid(strict),
    ensures
        file_bytes(s.all_chunks()) == file_bytes(s.chunks) + frame(chunk_bytes(s.ended())),
        file_entries(s.all_chunks()) == s.entries(),
        chunks_ok(s.all_chunks(), strict),
        s.all_chunks().drop_last() == s.chunks,
        s.all_chunks().last() == s.ended(),
        all_chains(s.all_chunks()) == s.chains(),
{
    lemma_ended(s.closed, s.current);
    assert(s.all_chunks().drop_last() =~= s.chunks);
    assert(file_entries(s.all_chunks()) =~= s.entries());
    lemma_all_ok(s.closed, s.current, strict);
}

/// What it is for chains to be as long as they can be, at one of them.
proof fn lemma_maximal_at(chains: Seq<Chain>, i: int)
    requires
        maximal(chains),
        0 < i < chains.len(),
    ensures
        starts_anew(chains[i - 1].last_entry(), chains[i].stem),
{
    reveal(maximal);
}

/// A further ply keeps the chains as long as they can be.
#[verifier::rlimit(40)]
proof fn lemma_maximal_ply(s: Shape, e: EntryModel)
    requires
        maximal(s.chains()),
    ensures
        maximal(s.with_ply(e).chains()),
{
    let a = s.chains();
    let b = s.with_ply(e).chains();
    assert(a.len() == b.len());
    assert forall|i: int| 0 < i < b.len() implies starts_anew(
        b[i - 1].last_entry(),
        (#[trigger] b[i]).stem,
    ) by {
        lemma_maximal_at(a, i);
        assert(b[i - 1] == a[i - 1]);
        assert(b[i].stem == a[i].stem);
    }
    assert(maximal(b)) by {
        reveal(maximal);
    }
}

/// A further chain keeps the chains as long as they can be, if its stem does not continue the last
/// one.
proof fn lemma_maximal_stem(chains: Seq<Chain>, c: Chain)
    requires
        maximal(chains),
        chains.len() > 0 ==> starts_anew(chains.last().last_entry(), c.stem),
    ensures
        maximal(chains.push(c)),
{
    reveal(maximal);
}

/// The state of a writer after a further entry.
proof fn lemma_next(
    before: Seq<u8>,
    w: WriterModel,
    s: Shape,
    e: EntryModel,
    strict: bool,
) -> (r: Shape)
    requires
        s.valid(strict),
        s.is_of(before, w),
        w.accepts(e),
        strict ==> w.packer.last.is_continued_by(e) || entry_storable(e),
    ensures
        r.valid(strict),
        r.is_of(before, w.with_entry(e)),
        r.entries() == s.entries().push(e),
{
    let c = s.current;
    assert(c.plies.len() <= u16::MAX) by {
        reveal(Chain::formed);
    }
    lemma_list_len(c.stem, c.plies);
    if w.packer.last.is_continued_by(e) {
        assert(follows(w.packer.last, e)) by {
            reveal(follows);
        }
        lemma_longer(c, e);
        lemma_maximal_ply(s, e);
        let r = s.with_ply(e);
        assert(r.entries() =~= s.entries().push(e));
        r
    } else {
        lemma_single(e);
        lemma_ended(s.closed, c);
        lemma_all_ok(s.closed, c, strict);
        let packed = chunk_bytes(s.ended());
        assert(w.packer.closed().packed =~= packed);
        assert(starts_anew(s.chains().last().last_entry(), e)) by {
            reveal(starts_anew);
        }
        lemma_maximal_stem(s.chains(), single(e));
        if w.packer.closed().full() {
            lemma_all_chunks(s, strict);
            let r = Shape { chunks: s.all_chunks(), closed: Seq::empty(), current: single(e) };
            assert(r.chains() =~= s.chains().push(single(e)));
            assert(r.entries() =~= s.entries().push(e));
            assert(w.with_entry(e).file->0 =~= before + file_bytes(r.chunks));
            r
        } else {
            let r = Shape { chunks: s.chunks, closed: s.ended(), current: single(e) };
            assert(r.chains() =~= s.chains().push(single(e)));
            assert(r.entries() =~= s.entries().push(e));
            r
        }
    }
}

/// The state of a writer after a first entry and others.
proof fn lemma_written(before: Seq<u8>, entries: Seq<EntryModel>, strict: bool) -> (r: Shape)
    requires
        entries.len() > 0,
        accepted(WriterModel::start(before), entries),
        strict ==> writable(WriterModel::start(before), entries),
    ensures
        r.valid(strict),
        r.is_of(before, written(WriterModel::start(before), entries)),
        r.entries() == entries,
    decreases entries.len(),
{
    let first = WriterModel::start(before);
    let e = entries.last();
    let w = written(first, entries.drop_last());
    assert(entries =~= entries.drop_last().push(e));
    if entries.len() == 1 {
        lemma_single(e);
        let r = Shape { chunks: Seq::empty(), closed: Seq::empty(), current: single(e) };
        lemma_all_ok(r.closed, r.current, strict);
        assert(maximal(r.chains())) by {
            reveal(maximal);
        }
        assert(r.entries() =~= entries);
        assert(before + file_bytes(r.chunks) =~= before);
        r
    } else {
        let s = lemma_written(before, entries.drop_last(), strict);
        lemma_next(before, w, s, e, strict)
    }
}

/// The file once what has been packed is in it.
proof fn lemma_flushed(before: Seq<u8>, w: WriterModel, s: Shape, strict: bool)
    requires
        s.valid(strict),
        s.is_of(before, w),
        w.can_flush(),
    ensures
        w.flushed().file == Some(before + file_bytes(s.all_chunks())),
        file_entries(s.all_chunks()) == s.entries(),
        chunks_ok(s.all_chunks(), strict),
        full_chunks(s.all_chunks().drop_last()),
        chunk_bytes(s.all_chunks().last()).len() <= SUGGESTED_CHUNK_SIZE + MAX_MOVELIST_SIZE,
        maximal(all_chains(s.all_chunks())),
{
    lemma_entry_bytes_len(s.current.stem);
    lemma_ended(s.closed, s.current);
    assert(w.packer.closed().packed =~= chunk_bytes(s.ended()));
    lemma_all_chunks(s, strict);
    assert(w.flushed().file->0 =~= before + file_bytes(s.all_chunks()));
}

/// Where nothing has been written, the file is as it was.
proof fn lemma_nothing_written(before: Seq<u8>, entries: Seq<EntryModel>)
    requires
        entries.len() == 0,
    ensures
        bytes_written(before, entries) == before + file_bytes(Seq::empty()),
        file_entries(Seq::empty()) == entries,
{
    assert(entries =~= file_entries(Seq::empty()));
    assert(before =~= before + file_bytes(Seq::empty()));
}

/// What has been written to the end of `before` is a sequence of chunks.
proof fn lemma_bytes_written(before: Seq<u8>, entries: Seq<EntryModel>, strict: bool) -> (r: Seq<
    Seq<Chain>,
>)
    requires
        accepted(WriterModel::start(before), entries),
        strict ==> writable(WriterModel::start(before), entries),
        written(WriterModel::start(before), entries).can_flush(),
    ensures
        bytes_written(before, entries) == before + file_bytes(r),
        file_entries(r) == entries,
        chunks_ok(r, strict),
        (r.len() > 0) == (entries.len() > 0),
        entries.len() > 0 ==> {
            &&& maximal(all_chains(r))
            &&& full_chunks(r.drop_last())
            &&& chunk_bytes(r.last()).len() <= SUGGESTED_CHUNK_SIZE + MAX_MOVELIST_SIZE
        },
{
    if entries.len() == 0 {
        lemma_nothing_written(before, entries);
        Seq::empty()
    } else {
        let s = lemma_written(before, entries, strict);
        let w = written(WriterModel::start(before), entries);
        lemma_flushed(before, w, s, strict);
        assert(bytes_written(before, entries) == w.flushed().file->0);
        s.all_chunks()
    }
}

/// Chunks of the sizes that a writer gives them can be told from their frames as their chains can.
proof fn lemma_chunks_valid(chunks: Seq<Seq<Chain>>)
    requires
        chunks_ok(chunks, true),
        chunks.len() > 0 ==> {
            &&& full_chunks(chunks.drop_last())
            &&& chunk_bytes(chunks.last()).len() <= SUGGESTED_CHUNK_SIZE + MAX_MOVELIST_SIZE
        },
    ensures
        forall|j: int| 0 <= j < chunks.len() ==> chunk_valid(#[trigger] chunks[j]),
{
    reveal(all_ok);
    assert forall|j: int| 0 <= j < chunks.len() implies chunk_valid(#[trigger] chunks[j]) by {
        assert(all_ok(chunks[j], true));
        if j < chunks.len() - 1 {
            assert(chunks.drop_last()[j] == chunks[j]);
        }
    }
}

/// What has been written to the end of `before` is a sequence of chunks that can be told from their
/// frames.
proof fn lemma_chunks_written(before: Seq<u8>, entries: Seq<EntryModel>) -> (r: Seq<Seq<Chain>>)
    requires
        writable(WriterModel::start(before), entries),
        written(WriterModel::start(before), entries).can_flush(),
    ensures
        bytes_written(before, entries) == before + file_bytes(r),
        file_entries(r) == entries,
        forall|j: int| 0 <= j < r.len() ==> chunk_valid(#[trigger] r[j]),
{
    lemma_accepted(WriterModel::start(before), entries);
    let r = lemma_bytes_written(before, entries, true);
    lemma_chunks_valid(r);
    r
}

/// What stands before something is a beginning.
proof fn lemma_prefix(before: Seq<u8>, behind: Seq<u8>)
    ensures
        before.is_prefix_of(before + behind),
{
    assert(before =~= (before + behind).take(before.len() as int));
}

/// The entries of a file are those that have been written to its end.
pub proof fn law_written_entries(before: Seq<u8>, entries: Seq<EntryModel>)
    requires
        writable(WriterModel::start(before), entries),
        written(WriterModel::start(before), entries).can_flush(),
    ensures
        before.is_prefix_of(bytes_written(before, entries)),
        entries_of_file(bytes_written(before, entries), before.len()) == Some(entries),
{
    let chunks = lemma_chunks_written(before, entries);
    law_file_round_trip(before, chunks);
    lemma_prefix(before, file_bytes(chunks));
}

/// Whatever has been written is a sequence of chunks with the entries that have been written. Each
/// chunk is made of chains: a stem in its stored form, the count of the plies and their text. Each
/// chain is as long as it can be. All chunks but the last have at least the suggested size, and none
/// is larger than there is room for. If the stems can be told from their stored form, so can the
/// chunks.
pub proof fn law_written_chunks(before: Seq<u8>, entries: Seq<EntryModel>)
    requires
        accepted(WriterModel::start(before), entries),
        written(WriterModel::start(before), entries).can_flush(),
        entries.len() > 0,
    ensures
        exists|chunks: Seq<Seq<Chain>>| #[trigger]
            file_entries(chunks) == entries && {
                &&& bytes_written(before, entries) == before + file_bytes(chunks)
                &&& chunks.len() > 0
                &&& forall|j: int| 0 <= j < chunks.len() ==> all_formed(#[trigger] chunks[j])
                &&& maximal(all_chains(chunks))
                &&& full_chunks(chunks.drop_last())
                &&& chunk_bytes(chunks.last()).len() <= SUGGESTED_CHUNK_SIZE + MAX_MOVELIST_SIZE
                &&& writable(WriterModel::start(before), entries) ==> forall|j: int|
                    0 <= j < chunks.len() ==> chunk_valid(#[trigger] chunks[j])
            },
{
    let strict = writable(WriterModel::start(before), entries);
    let chunks = lemma_bytes_written(before, entries, strict);
    assert(file_entries(chunks) == entries);
    assert forall|j: int| 0 <= j < chunks.len() implies all_formed(#[trigger] chunks[j]) by {
        assert(all_ok(chunks[j], strict));
        reveal(all_ok);
    }
    if strict {
        lemma_chunks_valid(chunks);
    }
}

/// A writer that has been flushed has nothing left to flush.
pub proof fn law_flush_once(w: WriterModel)
    ensures
        w.flushed().can_flush(),
        w.flushed().flushed() == w.flushed(),
{
}

/// A writer that has been flushed is one that begins to write to the end of its file.
pub proof fn law_flush_starts_anew(w: WriterModel)
    requires
        w.file is Some,
        w.packer.packed.len() == 0 ==> w.packer == PackerModel::start(),
    ensures
        w.flushed() == WriterModel::start(w.flushed().file->0),
{
}

/// A file begins with the magic of its first chunk.
proof fn lemma_file_magic(chunks: Seq<Seq<Chain>>)
    requires
        chunks.len() > 0,
    ensures
        file_bytes(chunks).len() >= 4,
        file_bytes(chunks).take(4) == magic(),
{
    let first = chunks.take(1);
    let head = file_bytes(first);
    assert(first.drop_last() =~= Seq::<Seq<Chain>>::empty());
    assert(file_bytes(first.drop_last()) =~= Seq::<u8>::empty());
    lemma_file_prefix(chunks, 1);
    assert(head =~= frame(chunk_bytes(first.last())));
    assert(head.take(4) =~= magic());
    assert(file_bytes(chunks).take(4) =~= file_bytes(chunks).take(head.len() as int).take(4));
}

/// What has been written begins with the magic of its first chunk.
pub proof fn law_written_magic(before: Seq<u8>, entries: Seq<EntryModel>)
    requires
        accepted(WriterModel::start(before), entries),
        written(WriterModel::start(before), entries).can_flush(),
        entries.len() > 0,
    ensures
        ({
            let n = before.len() as int;
            let bytes = bytes_written(before, entries);
            &&& n + 4 <= bytes.len()
            &&& bytes.subrange(n, n + 4) == magic()
        }),
{
    let n = before.len() as int;
    let chunks = lemma_bytes_written(before, entries, false);
    lemma_file_magic(chunks);
    assert((before + file_bytes(chunks)).subrange(n, n + 4) =~= file_bytes(chunks).take(4));
}

/// A reader that is opened on what has been written returns the entries that have been written, one
/// after the other, and nothing else.
pub proof fn law_read_back(before: Seq<u8>, entries: Seq<EntryModel>)
    requires
        writable(WriterModel::start(before), entries),
        written(WriterModel::start(before), entries).can_flush(),
        entries.len() > 0,
    ensures
        ({
            let file = FileModel {
                data: bytes_written(before, entries),
                start: before.len(),
                pos: before.len(),
            };
            &&& ReaderModel::open(file) is Ok
            &&& ReaderModel::open(file)->Ok_0.rest() == Some(entries)
        }),
{
    law_written_entries(before, entries);
    let file = FileModel {
        data: bytes_written(before, entries),
        start: before.len(),
        pos: before.len(),
    };
    law_reader_reads_file(file);
}

/// A file to whose end entries have been written has the entries that it had, and then those.
pub proof fn law_written_behind(before: Seq<u8>, entries: Seq<EntryModel>)
    requires
        entries_of_file(before, 0) is Some,
        writable(WriterModel::start(before), entries),
        written(WriterModel::start(before), entries).can_flush(),
    ensures
        entries_of_file(bytes_written(before, entries), 0) == Some(
            entries_of_file(before, 0)->0 + entries,
        ),
{
    let chunks = lemma_chunks_written(before, entries);
    let none = Seq::<u8>::empty();
    law_file_round_trip(none, chunks);
    assert(none + file_bytes(chunks) =~= file_bytes(chunks));
    law_files_joined(before, file_bytes(chunks));
}

/// The bytes of the file to whose end `runs` have been written one after the other, with a flush
/// after each.
pub open spec fn runs_written(before: Seq<u8>, runs: Seq<Seq<EntryModel>>) -> Seq<u8>
    decreases runs.len(),
{
    if runs.len() == 0 {
        before
    } else {
        bytes_written(runs_written(before, runs.drop_last()), runs.last())
    }
}

/// Whether `runs` can be written one after the other, with a flush after each.
pub open spec fn runs_writable(before: Seq<u8>, runs: Seq<Seq<EntryModel>>) -> bool
    decreases runs.len(),
{
    runs.len() == 0 || {
        let w = WriterModel::start(runs_written(before, runs.drop_last()));
        &&& runs_writable(before, runs.drop_last())
        &&& writable(w, runs.last())
        &&& written(w, runs.last()).can_flush()
    }
}

/// The entries of `runs`.
pub open spec fn run_entries(runs: Seq<Seq<EntryModel>>) -> Seq<EntryModel>
    decreases runs.len(),
{
    if runs.len() == 0 {
        Seq::empty()
    } else {
        run_entries(runs.drop_last()) + runs.last()
    }
}

/// Entries are read back also if the writer is flushed in between.
pub proof fn law_written_runs(before: Seq<u8>, runs: Seq<Seq<EntryModel>>)
    requires
        runs_writable(before, runs),
    ensures
        before.len() <= runs_written(before, runs).len(),
        entries_of_file(runs_written(before, runs), before.len()) == Some(run_entries(runs)),
    decreases runs.len(),
{
    if runs.len() == 0 {
        law_file_round_trip(before, Seq::empty());
        assert(before + file_bytes(Seq::empty()) =~= before);
        assert(file_entries(Seq::empty()) == run_entries(runs));
    } else {
        let data = runs_written(before, runs.drop_last());
        law_written_runs(before, runs.drop_last());
        let chunks = lemma_chunks_written(data, runs.last());
        law_file_round_trip(data, chunks);
        law_file_followed(data, file_bytes(chunks), before.len());
    }
}

} // verus!
