//! When a writer takes an entry, and where it puts it.
use vstd::prelude::*;

use crate::common::chain::{list_bytes, ply_of};
use crate::common::entry::{entry_bytes, lemma_entry_bytes_len, EntryModel};
use crate::common::entry_rules::{law_continuation, law_packable_entry};
use crate::common::frame::frame;
use crate::common::move_numbers::pseudo_legal;
use crate::common::move_text::lemma_ply_bits_len;
use crate::common::position_rules::filled;
use crate::writer::compressed_writer::WriterModel;
use crate::writer::entry_packer::PackerModel;
use crate::writer::move_score_list::PlyListModel;
use crate::writer::read_back::{accepted, written};

verus! {

/// The size of the chunk of `p` with the current chain in it: the plies take two bytes for their
/// count, and their text.
pub open spec fn chunk_size(p: PackerModel) -> nat {
    if p.is_first {
        p.packed.len()
    } else {
        p.packed.len() + 2 + (p.list.bits.len() + 7) / 8
    }
}

/// Whether an entry can begin a chain: it has at most 32 pieces, and its move goes between two
/// squares of the board, or nowhere.
pub open spec fn can_begin(e: EntryModel) -> bool {
    filled(e.pos.board, 64).len() <= 32 && (e.mv.from.idx == e.mv.to.idx || (e.mv.from.idx < 64
        && e.mv.to.idx < 64))
}

/// Whether `e` is the next ply after `last`.
pub open spec fn is_next_ply(last: EntryModel, e: EntryModel) -> bool {
    e.ply - last.ply == 1 && e.result + last.result == 0 && e.pos == last.pos.after_move(last.mv)
}

/// The chunk with the current chain in it.
proof fn lemma_closed(p: PackerModel)
    ensures
        p.closed().packed.len() == chunk_size(p),
        p.closed().list == p.list,
{
}

/// The first entry can be written exactly if it can begin a chain, and its result is not one of the
/// two lowest numbers.
pub proof fn law_first_entry(before: Seq<u8>, e: EntryModel)
    ensures
        WriterModel::start(before).accepts(e) == (can_begin(e) && e.result > -32767),
{
    law_packable_entry(e);
}

/// An entry can be written exactly if it is the next ply with a move of its position, and the chain
/// has less than 65535 plies; or if it is not, can begin a chain, and there is room in the chunk for
/// the current chain, which is to be at most ten kilobytes above one megabyte. If the chunk has a
/// megabyte, the file is to be there.
pub proof fn law_next_entry(w: WriterModel, e: EntryModel)
    ensures
        ({
            let p = w.packer;
            let next = is_next_ply(p.last, e);
            w.accepts(e) == {
                &&& e.result != -32768
                &&& e.result + p.last.result != 0 || p.last.ply != 65535
                &&& next ==> p.list.num_plies < 65535 && pseudo_legal(e.pos, e.mv)
                &&& !next ==> can_begin(e) && chunk_size(p) <= 1058816
                &&& !next && chunk_size(p) >= 1048576 ==> w.file is Some
            }
        }),
{
    law_packable_entry(e);
    law_continuation(w.packer.last, e);
    lemma_closed(w.packer);
}

/// A next ply goes into the current chain and leaves the file as it is.
pub proof fn law_ply_written(w: WriterModel, e: EntryModel)
    requires
        is_next_ply(w.packer.last, e),
    ensures
        ({
            let v = w.with_entry(e);
            &&& v.file == w.file
            &&& v.packer.packed == w.packer.packed
            &&& v.packer.list == w.packer.list.with_ply(e.pos, ply_of(e))
            &&& v.packer.last == e
        }),
{
    law_continuation(w.packer.last, e);
}

/// An entry that is not the next ply begins a new chain. If the chunk, with the current chain in it,
/// has a megabyte or more, it goes into the file before, and the new chain begins a new chunk.
pub proof fn law_stem_written(w: WriterModel, e: EntryModel)
    requires
        !is_next_ply(w.packer.last, e),
        w.file is Some,
    ensures
        ({
            let p = w.packer;
            let v = w.with_entry(e);
            let chunk = if p.is_first {
                p.packed
            } else {
                p.packed + list_bytes(p.list)
            };
            &&& chunk_size(p) >= 1048576 ==> v.file == Some(w.file->0 + frame(chunk))
                && v.packer.packed == entry_bytes(e)
            &&& chunk_size(p) < 1048576 ==> v.file == w.file && v.packer.packed == chunk
                + entry_bytes(e)
            &&& v.packer.list.num_plies == 0
            &&& v.packer.list.bits.len() == 0
            &&& v.packer.last == e
            &&& !v.packer.is_first
        }),
{
    law_continuation(w.packer.last, e);
    lemma_closed(w.packer);
    assert(Seq::<u8>::empty() + entry_bytes(e) =~= entry_bytes(e));
}

/// What has been packed can be flushed exactly if there is nothing, or room in the chunk for the
/// current chain, and a file. It then is one more chunk of the file.
pub proof fn law_flush(w: WriterModel)
    ensures
        w.can_flush() == (w.packer.packed.len() == 0 || (chunk_size(w.packer) <= 1058816 && w.file
            is Some)),
        w.packer.packed.len() == 0 ==> w.flushed() == w,
        w.packer.packed.len() > 0 ==> {
            &&& !w.packer.is_first ==> w.flushed().file == Some(
                w.file->0 + frame(w.packer.packed + list_bytes(w.packer.list)),
            )
            &&& w.flushed().packer.packed.len() == 0
            &&& w.flushed().packer.is_first
        },
{
    lemma_closed(w.packer);
}

/// What is packed never grows much beyond a megabyte, and a ply takes at most seven bytes.
proof fn lemma_packed_bounded(before: Seq<u8>, entries: Seq<EntryModel>)
    requires
        accepted(WriterModel::start(before), entries),
    ensures
        ({
            let w = written(WriterModel::start(before), entries);
            &&& w.packer.packed.len() < 1048576 + 34
            &&& w.packer.list.bits.len() <= 56 * w.packer.list.num_plies
            &&& w.packer.is_first == (entries.len() == 0)
            &&& w.file is Some
        }),
    decreases entries.len(),
{
    if entries.len() > 0 {
        let e = entries.last();
        let v = written(WriterModel::start(before), entries.drop_last());
        lemma_packed_bounded(before, entries.drop_last());
        law_next_entry(v, e);
        if is_next_ply(v.packer.last, e) {
            law_ply_written(v, e);
            lemma_with_ply(v.packer.list, e);
        } else {
            law_stem_written(v, e);
            lemma_closed(v.packer);
            lemma_entry_bytes_len(e);
        }
    }
}

/// A ply takes at most seven bytes.
proof fn lemma_with_ply(list: PlyListModel, e: EntryModel)
    requires
        pseudo_legal(e.pos, e.mv),
        list.num_plies < 65535,
        list.bits.len() <= 56 * list.num_plies,
    ensures
        ({
            let next = list.with_ply(e.pos, ply_of(e));
            &&& next.bits.len() <= 56 * next.num_plies
        }),
{
    lemma_ply_bits_len(e.pos, ply_of(e), list.last_score, list.last_draw);
}

/// While the current chain has no more than 1457 plies, there is room for it, so that what has been
/// written can be flushed, and any entry that can begin a chain can be written next.
pub proof fn law_short_chains_fit(before: Seq<u8>, entries: Seq<EntryModel>, e: EntryModel)
    requires
        accepted(WriterModel::start(before), entries),
        written(WriterModel::start(before), entries).packer.list.num_plies <= 1457,
    ensures
        ({
            let w = written(WriterModel::start(before), entries);
            &&& w.can_flush()
            &&& !is_next_ply(w.packer.last, e) && can_begin(e) && e.result > -32767 && w.packer.last.ply
                < 65535 ==> w.accepts(e)
            &&& is_next_ply(w.packer.last, e) && pseudo_legal(e.pos, e.mv) && e.result > -32767
                && w.packer.last.ply < 65535 ==> w.accepts(e)
        }),
{
    let w = written(WriterModel::start(before), entries);
    lemma_packed_bounded(before, entries);
    law_next_entry(w, e);
    law_flush(w);
}

} // verus!
