//! What the bytes of chains and chunks hold, field by field.
use vstd::prelude::*;

use crate::chess::bitboard::count_below;
use crate::chess::chess_move::Move;
use crate::chess::color::Color;
use crate::chess::piece::Piece;
use crate::chess::position::{pieces_of, PositionModel};
use crate::chess::rules::is_of;
use crate::common::arithmetic::{be16, used_bits, wrapping_difference};
use crate::common::binpack_error::{BinpackError, IoError};
use crate::common::bits::{bytes_of, to_bits};
use crate::common::chain::{ply_list, Chain};
use crate::common::entry::{entry_bytes, lemma_entry_bytes_len, EntryModel};
use crate::common::entry_rules::pair;
use crate::common::frame::{frame, magic, next_frame, size_of_header};
use crate::common::move_numbers::{num_moves, number_of};
use crate::common::move_text::{delta_bits, move_bits};
use crate::common::vle::vle_bits;

verus! {

/// The squares below `n` that hold a piece of side `c`.
pub open spec fn own(board: Seq<Piece>, c: Color, n: int) -> Set<int> {
    Set::new(|i: int| 0 <= i < n && is_of(board[i], c))
}

/// Counting the pieces of a side gives the size of their set.
proof fn lemma_own(board: Seq<Piece>, c: Color, n: int)
    requires
        0 <= n <= 64,
    ensures
        own(board, c, n).finite(),
        own(board, c, n).len() == count_below(pieces_of(board, c), n),
    decreases n,
{
    if n == 0 {
        assert(own(board, c, n) =~= Set::empty());
    } else {
        lemma_own(board, c, n - 1);
        if is_of(board[n - 1], c) {
            assert(own(board, c, n) =~= own(board, c, n - 1).insert(n - 1));
        } else {
            assert(own(board, c, n) =~= own(board, c, n - 1));
        }
    }
}

/// The bits of a move: how many pieces of the side to move stand on lower squares than the one that
/// moves, and the number of the move among those of that piece, each with as many digits as a choice
/// among the pieces and among the moves takes.
pub proof fn law_move_bits(p: PositionModel, m: Move)
    requires
        m.from.idx < 64,
    ensures
        ({
            let c = p.side_to_move;
            let from = m.from.idx as int;
            move_bits(p, m) == to_bits(
                own(p.board, c, from).len(),
                used_bits(own(p.board, c, 64).len()),
            ) + to_bits(number_of(p, m), used_bits(num_moves(p, from)))
        }),
{
    lemma_own(p.board, p.side_to_move, m.from.idx as int);
    lemma_own(p.board, p.side_to_move, 64);
}

/// The unsigned number that stands for `d`.
pub open spec fn unsigned(d: int) -> nat {
    if d >= 0 {
        (2 * d) as nat
    } else {
        (-2 * d - 1) as nat
    }
}

/// The text of a list of plies grows with each ply by the bits of its move, by how much its score
/// differs from the negated score of the ply before, and by how much its draw score differs from
/// that of the ply before. `score` and `draw` are these differences, brought into the range of
/// sixteen bits.
pub proof fn law_ply_list(stem: EntryModel, plies: Seq<EntryModel>, score: int, draw: int)
    requires
        0 < plies.len() <= 65535,
        -32768 <= score <= 32767,
        -32768 <= draw <= 32767,
        ({
            let e = plies.last();
            let before = if plies.len() == 1 {
                stem
            } else {
                plies[plies.len() - 2]
            };
            &&& (e.score + before.score - score) % 65536 == 0
            &&& (e.draw_score - before.draw_score - draw) % 65536 == 0
        }),
    ensures
        ({
            let e = plies.last();
            let list = ply_list(stem, plies);
            &&& list.num_plies == plies.len()
            &&& list.bits == ply_list(stem, plies.drop_last()).bits + move_bits(e.pos, e.mv)
                + vle_bits(unsigned(score)) + vle_bits(unsigned(draw))
        }),
{
    let e = plies.last();
    let init = plies.drop_last();
    let list = ply_list(stem, init);
    lemma_list_state(stem, init);
    lemma_list_state(stem, plies);
    let before = if init.len() == 0 {
        stem
    } else {
        init.last()
    };
    assert((e.score - list.last_score - score) % 65536 == 0) by {
        let a = e.score + before.score - score;
        let b = list.last_score + before.score;
        assert(a - b == e.score - list.last_score - score);
    }
    lemma_delta(e.score, list.last_score, score);
    lemma_delta(e.draw_score, list.last_draw, draw);
    lemma_list_grows(stem, plies);
    let a = move_bits(e.pos, e.mv);
    let b = vle_bits(unsigned(score));
    let c = vle_bits(unsigned(draw));
    assert(list.bits + (a + b + c) =~= list.bits + a + b + c);
}

/// The bits of a number that differs by `d` from the one before it.
proof fn lemma_delta(x: i16, last: i16, d: int)
    requires
        -32768 <= d <= 32767,
        (x - last - d) % 65536 == 0,
    ensures
        delta_bits(x, last) == vle_bits(unsigned(d)),
{
    assert(wrapping_difference(x, last) == d);
}

/// What a ply adds to a list.
proof fn lemma_list_grows(stem: EntryModel, plies: Seq<EntryModel>)
    requires
        plies.len() > 0,
    ensures
        ({
            let e = plies.last();
            let list = ply_list(stem, plies.drop_last());
            ply_list(stem, plies).bits == list.bits + (move_bits(e.pos, e.mv) + delta_bits(
                e.score,
                list.last_score,
            ) + delta_bits(e.draw_score, list.last_draw))
        }),
{
}

/// What a list of plies remembers of its last one.
proof fn lemma_list_state(stem: EntryModel, plies: Seq<EntryModel>)
    requires
        plies.len() <= 65535,
    ensures
        ({
            let list = ply_list(stem, plies);
            let last = if plies.len() == 0 {
                stem
            } else {
                plies.last()
            };
            &&& list.num_plies == plies.len()
            &&& list.last_draw == last.draw_score
            &&& (list.last_score + last.score) % 65536 == 0
            &&& plies.len() == 0 ==> list.bits.len() == 0
        }),
    decreases plies.len(),
{
    if plies.len() > 0 {
        lemma_list_state(stem, plies.drop_last());
    }
}

/// A list without a ply has no bits.
pub proof fn law_empty_list(stem: EntryModel)
    ensures
        ply_list(stem, Seq::empty()).bits.len() == 0,
        ply_list(stem, Seq::empty()).num_plies == 0,
{
}

/// A ply whose score is the negated score of the ply before, and whose draw score is the same one,
/// takes ten unset bits besides its move.
pub proof fn law_unchanged_scores(stem: EntryModel, e: EntryModel)
    requires
        e.score + stem.score == 0,
        e.draw_score == stem.draw_score,
    ensures
        ply_list(stem, seq![e]).bits == move_bits(e.pos, e.mv) + Seq::new(10, |i: int| false),
{
    law_ply_list(stem, seq![e], 0, 0);
    assert(seq![e].drop_last() =~= Seq::<EntryModel>::empty());
    reveal_with_fuel(to_bits, 6);
    assert(vle_bits(0) =~= Seq::new(5, |i: int| false));
    assert(ply_list(stem, seq![e]).bits =~= move_bits(e.pos, e.mv) + Seq::new(10, |i: int| false));
}

/// The bytes of a chain: the 34 of its stem, two for the count of the plies, the high one first, and
/// as many as their text takes.
pub proof fn law_chain_bytes(c: Chain)
    requires
        c.plies.len() <= 65535,
    ensures
        ({
            let d = c.bytes();
            let bits = ply_list(c.stem, c.plies).bits;
            &&& d.len() == 36 + (bits.len() + 7) / 8
            &&& d.take(34) == entry_bytes(c.stem)
            &&& pair(d, 34) == c.plies.len()
            &&& d.skip(36) == bytes_of(bits)
        }),
{
    reveal(Chain::bytes);
    lemma_entry_bytes_len(c.stem);
    lemma_list_state(c.stem, c.plies);
    let d = c.bytes();
    let list = ply_list(c.stem, c.plies);
    assert(d.take(34) =~= entry_bytes(c.stem));
    assert(d[34] == be16(list.num_plies)[0]);
    assert(d[35] == be16(list.num_plies)[1]);
    assert(d.skip(36) =~= bytes_of(list.bits));
}

/// A frame is the four bytes of "BINP", the size of the chunk in four bytes, the lowest first, and
/// the chunk.
pub proof fn law_frame(chunk: Seq<u8>)
    requires
        chunk.len() < 0x1_0000_0000,
    ensures
        ({
            let f = frame(chunk);
            &&& f.len() == 8 + chunk.len()
            &&& f.take(4) == seq![66u8, 73u8, 78u8, 80u8]
            &&& f[4] + 0x100 * f[5] + 0x1_0000 * f[6] + 0x100_0000 * f[7] == chunk.len()
            &&& f.skip(8) == chunk
        }),
{
    let f = frame(chunk);
    let n = chunk.len() as u32;
    assert(f.take(4) =~= seq![66u8, 73u8, 78u8, 80u8]);
    assert(f.skip(8) =~= chunk);
    assert(n / 65536 == n / 256 / 256);
    assert(n / 16777216 == n / 65536 / 256);
}

/// What is found at a place in a file: nothing at its end, a chunk if the four bytes of "BINP" and a
/// size stand there and as many bytes behind them, and otherwise an error: that the file ends too
/// early if there are less than eight bytes or less than the size says, and that the magic is wrong
/// if the first four bytes are others.
pub proof fn law_next_frame(data: Seq<u8>, pos: nat)
    ensures
        ({
            let left = data.len() - pos;
            let i = pos as int;
            let right = data[i] == 66 && data[i + 1] == 73 && data[i + 2] == 78 && data[i + 3] == 80;
            let size = data[i + 4] + 0x100 * data[i + 5] + 0x1_0000 * data[i + 6] + 0x100_0000
                * data[i + 7];
            let r = next_frame(data, pos);
            &&& left <= 0 ==> r == Ok::<Option<Seq<u8>>, BinpackError>(None)
            &&& 0 < left < 8 ==> r == Err::<Option<Seq<u8>>, BinpackError>(
                BinpackError::Io(IoError::UnexpectedEof),
            )
            &&& left >= 8 && !right ==> r == Err::<Option<Seq<u8>>, BinpackError>(
                BinpackError::InvalidMagic,
            )
            &&& left >= 8 && right && left - 8 < size ==> r == Err::<
                Option<Seq<u8>>,
                BinpackError,
            >(BinpackError::Io(IoError::UnexpectedEof))
            &&& left >= 8 && right && left - 8 >= size ==> r == Ok::<
                Option<Seq<u8>>,
                BinpackError,
            >(Some(data.subrange(i + 8, i + 8 + size)))
        }),
{
    let i = pos as int;
    if data.len() - pos >= 8 {
        let header = data.subrange(i, i + 8);
        let t = header.take(4);
        assert(t[0] == data[i] && t[1] == data[i + 1] && t[2] == data[i + 2] && t[3] == data[i
            + 3]);
        let right = data[i] == 66 && data[i + 1] == 73 && data[i + 2] == 78 && data[i + 3] == 80;
        if right {
            assert(t =~= magic());
        } else {
            assert(magic()[0] == 66 && magic()[1] == 73 && magic()[2] == 78 && magic()[3] == 80);
            assert(t != magic());
        }
        assert(header[4] == data[i + 4] && header[5] == data[i + 5] && header[6] == data[i + 6]
            && header[7] == data[i + 7]);
        assert(right == (size_of_header(header) is Ok));
    }
}

} // verus!
