//! What the stored forms of moves and entries hold, field by field.
use vstd::prelude::*;

use crate::chess::bitboard::{count_below, squares};
use crate::chess::castling_rights::CastleType;
use crate::chess::chess_move::{Move, MoveType};
use crate::chess::color::Color;
use crate::chess::rules::{king_of, lemma_king_at, only_at};
use crate::common::arithmetic::{be16, from_be16, zigzag};
use crate::common::compressed_move::{
    lemma_fields, move_storable, pack_move, packable, unpack_move,
};
use crate::common::compressed_position::{
    compressed, decompressed, ep_below, ep_marks_inside, from_be64, is_stored, lemma_ep_below,
    marked, position_bytes, position_of_bytes, some_on_wing, storable, stored,
};
use crate::common::entry::{
    entry_bytes, entry_of_bytes, entry_storable, packable_entry, ply_result, EntryModel,
};
use crate::common::position_rules::{filled, law_fits};

verus! {

/// The fields of a move in sixteen bits: from the high bits on, two for its kind, six for the square
/// that it starts from, six for the one that it goes to, and two for the piece that a pawn becomes.
pub proof fn law_move_fields(m: Move)
    requires
        m.from.idx < 64,
        m.to.idx < 64,
        m.from != m.to,
    ensures
        ({
            let v = pack_move(m) as int;
            let x = m.promoted;
            &&& v / 16384 == match m.mtype {
                MoveType::Normal => 0int,
                MoveType::Promotion => 1,
                MoveType::Castle => 2,
                MoveType::EnPassant => 3,
            }
            &&& (v / 256) % 64 == m.from.idx
            &&& (v / 4) % 64 == m.to.idx
            &&& !(m.mtype is Promotion) ==> v % 4 == 0
            &&& m.mtype is Promotion && (x is WhiteKnight || x is BlackKnight) ==> v % 4 == 0
            &&& m.mtype is Promotion && (x is WhiteBishop || x is BlackBishop) ==> v % 4 == 1
            &&& m.mtype is Promotion && (x is WhiteRook || x is BlackRook) ==> v % 4 == 2
            &&& m.mtype is Promotion && (x is WhiteQueen || x is BlackQueen) ==> v % 4 == 3
        }),
{
    let k = match m.mtype {
        MoveType::Normal => 0int,
        MoveType::Promotion => 1,
        MoveType::Castle => 2,
        MoveType::EnPassant => 3,
    };
    let q = if m.mtype is Promotion {
        m.promoted.spec_piece_type().spec_promotion_index() as int
    } else {
        0
    };
    lemma_fields(k, m.from.idx as int, m.to.idx as int, q);
}

/// The move that sixteen bits stand for, with the fields as they are written. What a pawn becomes is
/// black on the first rank and white elsewhere. The number 0 stands for the move that moves nothing.
pub proof fn law_move_read(v: u16)
    ensures
        ({
            let m = unpack_move(v);
            let black = (v / 4) % 64 < 8;
            &&& v == 0 ==> m.from.idx == 64 && m.to.idx == 64 && m.mtype is Normal && m.promoted
                is Empty
            &&& v > 0 ==> {
                &&& m.from.idx == (v / 256) % 64
                &&& m.to.idx == (v / 4) % 64
                &&& v < 16384 ==> m.mtype is Normal && m.promoted is Empty
                &&& 16384 <= v < 32768 ==> {
                    &&& m.mtype is Promotion
                    &&& v % 4 == 0 && black ==> m.promoted is BlackKnight
                    &&& v % 4 == 1 && black ==> m.promoted is BlackBishop
                    &&& v % 4 == 2 && black ==> m.promoted is BlackRook
                    &&& v % 4 == 3 && black ==> m.promoted is BlackQueen
                    &&& v % 4 == 0 && !black ==> m.promoted is WhiteKnight
                    &&& v % 4 == 1 && !black ==> m.promoted is WhiteBishop
                    &&& v % 4 == 2 && !black ==> m.promoted is WhiteRook
                    &&& v % 4 == 3 && !black ==> m.promoted is WhiteQueen
                }
                &&& 32768 <= v < 49152 ==> m.mtype is Castle && m.promoted is Empty
                &&& 49152 <= v ==> m.mtype is EnPassant && m.promoted is Empty
            }
        }),
{
}

/// A move that ends where it starts is stored as the move that moves nothing.
pub proof fn law_no_move_packed(m: Move)
    requires
        m.from == m.to,
    ensures
        pack_move(m) == 0,
{
}

/// Which moves have a stored form: those between two squares of the board, and those that end where
/// they start.
pub proof fn law_packable(m: Move)
    ensures
        packable(m) == (m.from.idx == m.to.idx || (m.from.idx < 64 && m.to.idx < 64)),
{
}

/// Which moves can be told from their stored form: the move that moves nothing, and those between two
/// squares of the board, which name a piece exactly if they are promotions: a black one to the first
/// rank, a white one to another.
pub proof fn law_move_storable(m: Move)
    ensures
        ({
            let x = m.promoted;
            let nothing = m.from.idx == 64 && m.to.idx == 64 && m.mtype is Normal && x is Empty;
            let black = x is BlackKnight || x is BlackBishop || x is BlackRook || x is BlackQueen;
            let white = x is WhiteKnight || x is WhiteBishop || x is WhiteRook || x is WhiteQueen;
            move_storable(m) == (nothing || {
                &&& m.from.idx < 64 && m.to.idx < 64 && m.from.idx != m.to.idx
                &&& !(m.mtype is Promotion) ==> x is Empty
                &&& m.mtype is Promotion && m.to.idx < 8 ==> black
                &&& m.mtype is Promotion && m.to.idx >= 8 ==> white
            })
        }),
{
    if m.from.idx == 64 && m.to.idx == 64 && m.mtype is Normal && m.promoted is Empty {
        assert(m == Move::spec_null());
    }
}

/// The number that two bytes are, the high one first.
pub open spec fn pair(data: Seq<u8>, i: int) -> int {
    256 * data[i] + data[i + 1]
}

/// The fields of an entry in its 34 bytes: the position in 24, and then two bytes each for the move,
/// the score, the ply with the result, the rule50 counter and the draw score. The score and the draw
/// score are doubled if they are not negative; if they are, they are counted from -1 down by the odd
/// numbers. The ply is in the low fourteen bits, and above it 0, 1 and 2 stand for the results 0, -1
/// and 1.
pub proof fn law_entry_fields(e: EntryModel)
    ensures
        ({
            let d = entry_bytes(e);
            &&& d.len() == 34
            &&& d.take(24) == position_bytes(compressed(e.pos))
            &&& pair(d, 24) == pack_move(e.mv)
            &&& pair(d, 26) == if e.score >= 0 {
                2 * e.score
            } else {
                -2 * e.score - 1
            }
            &&& e.ply < 16384 && e.result == 0 ==> pair(d, 28) == e.ply
            &&& e.ply < 16384 && e.result == -1 ==> pair(d, 28) == 16384 + e.ply
            &&& e.ply < 16384 && e.result == 1 ==> pair(d, 28) == 32768 + e.ply
            &&& e.ply < 16384 && e.result == -2 ==> pair(d, 28) == 49152 + e.ply
            &&& pair(d, 30) == e.pos.rule50_counter
            &&& pair(d, 32) == if e.draw_score >= 0 {
                2 * e.draw_score
            } else {
                -2 * e.draw_score - 1
            }
        }),
{
    let d = entry_bytes(e);
    let ply: u16 = e.ply;
    assert(d.take(24) =~= position_bytes(compressed(e.pos)));
    lemma_pair(pack_move(e.mv), d, 24);
    lemma_pair(zigzag(e.score), d, 26);
    lemma_pair(ply_result(e.ply, e.result), d, 28);
    lemma_pair(e.pos.rule50_counter, d, 30);
    lemma_pair(zigzag(e.draw_score), d, 32);
    assert(ply < 16384 ==> (ply | (0u16 << 14u16)) == ply && (ply | (1u16 << 14u16)) == 16384 + ply
        && (ply | (2u16 << 14u16)) == 32768 + ply && (ply | (3u16 << 14u16)) == 49152 + ply)
        by (bit_vector);
}

/// The two bytes of a number.
proof fn lemma_pair(v: u16, d: Seq<u8>, i: int)
    requires
        d[i] == be16(v)[0],
        d[i + 1] == be16(v)[1],
    ensures
        pair(d, i) == v,
{
}

/// What is read of an entry from 34 bytes, field by field. The number of the move follows from the
/// ply.
pub proof fn law_entry_read(d: Seq<u8>)
    requires
        d.len() == 34,
    ensures
        ({
            let e = entry_of_bytes(d);
            let score = pair(d, 26);
            let pr = pair(d, 28);
            let draw = pair(d, 32);
            &&& e.mv == unpack_move(pair(d, 24) as u16)
            &&& e.score == if score % 2 == 0 {
                score / 2
            } else {
                -(score + 1) / 2
            }
            &&& e.ply == pr % 16384
            &&& pr < 16384 ==> e.result == 0
            &&& 16384 <= pr < 32768 ==> e.result == -1
            &&& 32768 <= pr < 49152 ==> e.result == 1
            &&& 49152 <= pr ==> e.result == -2
            &&& e.draw_score == if draw % 2 == 0 {
                draw / 2
            } else {
                -(draw + 1) / 2
            }
            &&& e.pos.rule50_counter == pair(d, 30)
            &&& e.pos.fullmove == pr % 16384 / 2 + 1
            &&& e.pos.board == decompressed(position_of_bytes(d)).board
            &&& e.pos.side_to_move == decompressed(position_of_bytes(d)).side_to_move
            &&& e.pos.ep_square == decompressed(position_of_bytes(d)).ep_square
            &&& e.pos.castling_rights == decompressed(position_of_bytes(d)).castling_rights
        }),
{
    let pr: u16 = from_be16(d, 28);
    assert(pr & 0x3FFF == pr % 16384) by (bit_vector);
    assert(pr >> 14u16 == pr / 16384) by (bit_vector);
}

/// Whether the bit for the square `sq` is set in the eight bytes that begin `d`.
pub open spec fn has_bit(d: Seq<u8>, sq: int) -> bool {
    (d[7 - sq / 8] >> ((sq % 8) as u8)) % 2 == 1
}

/// The squares below `n` whose bit is set in the eight bytes that begin `d`.
pub open spec fn with_bit(d: Seq<u8>, n: int) -> Set<int> {
    Set::new(|i: int| 0 <= i < n && has_bit(d, i))
}

/// The four bits for the square `sq` in the bytes behind the eight that begin `d`: the low half of a
/// byte comes before its high half.
pub open spec fn four_bits(d: Seq<u8>, sq: int) -> int {
    let n = with_bit(d, sq).len() as int;
    if n % 2 == 0 {
        d[8 + n / 2] as int % 16
    } else {
        d[8 + n / 2] as int / 16
    }
}

/// The word that eight bytes make has the bits that are set in them.
proof fn lemma_has_bit(d: Seq<u8>, sq: int)
    requires
        d.len() >= 24,
        0 <= sq < 64,
    ensures
        squares(position_of_bytes(d).occupied).contains(sq) == has_bit(d, sq),
{
    let w: u64 = from_be64(d);
    let r: u64 = (sq / 8) as u64;
    let f: u8 = (sq % 8) as u8;
    let i: u64 = sq as u64;
    let d0: u8 = d[0];
    let d1: u8 = d[1];
    let d2: u8 = d[2];
    let d3: u8 = d[3];
    let d4: u8 = d[4];
    let d5: u8 = d[5];
    let d6: u8 = d[6];
    let d7: u8 = d[7];
    let b: u8 = d[7 - sq / 8];
    assert(((w >> i) & 1 == 1) == ((b >> f) % 2 == 1)) by (bit_vector)
        requires
            w == ((d0 as u64) << 56) | ((d1 as u64) << 48) | ((d2 as u64) << 40) | ((d3 as u64)
                << 32) | ((d4 as u64) << 24) | ((d5 as u64) << 16) | ((d6 as u64) << 8) | (
            d7 as u64),
            r < 8,
            f < 8,
            i == 8 * r + f,
            r == 7 ==> b == d0,
            r == 6 ==> b == d1,
            r == 5 ==> b == d2,
            r == 4 ==> b == d3,
            r == 3 ==> b == d4,
            r == 2 ==> b == d5,
            r == 1 ==> b == d6,
            r == 0 ==> b == d7,
    ;
}

/// Counting the set bits gives the size of their set.
proof fn lemma_with_bit(d: Seq<u8>, n: int)
    requires
        d.len() >= 24,
        0 <= n <= 64,
    ensures
        with_bit(d, n).finite(),
        with_bit(d, n).len() == count_below(squares(position_of_bytes(d).occupied), n),
    decreases n,
{
    if n == 0 {
        assert(with_bit(d, n) =~= Set::empty());
    } else {
        lemma_with_bit(d, n - 1);
        lemma_has_bit(d, n - 1);
        if has_bit(d, n - 1) {
            assert(with_bit(d, n) =~= with_bit(d, n - 1).insert(n - 1));
        } else {
            assert(with_bit(d, n) =~= with_bit(d, n - 1));
        }
    }
}

/// What is stored for a square.
proof fn lemma_four_bits(d: Seq<u8>, sq: int)
    requires
        d.len() >= 24,
        0 <= sq < 64,
    ensures
        ({
            let c = position_of_bytes(d);
            let there = has_bit(d, sq) && with_bit(d, sq).len() < 32;
            &&& is_stored(c, sq) == there
            &&& there ==> stored(c, sq) == four_bits(d, sq)
        }),
{
    let c = position_of_bytes(d);
    lemma_has_bit(d, sq);
    lemma_with_bit(d, sq);
    let n = with_bit(d, sq).len() as int;
    if n < 32 {
        assert(c.packed[n / 2] == d[8 + n / 2]);
    }
}

/// The board that is read from 24 bytes. A square whose bit is set, the first 32 of them, holds the
/// piece for which its four bits stand: the pieces in the order pawn, knight, bishop, rook, queen
/// and king, each white and then black; 12 is a pawn, white on the fourth rank and black elsewhere,
/// 13 and 14 are a white and a black rook, and 15 is a black king. The other squares are empty.
pub proof fn law_board_read(d: Seq<u8>, sq: int)
    requires
        d.len() >= 24,
        0 <= sq < 64,
    ensures
        ({
            let x = decompressed(position_of_bytes(d)).board[sq];
            let there = has_bit(d, sq) && with_bit(d, sq).len() < 32;
            let v = four_bits(d, sq);
            &&& x is Empty <==> !there
            &&& there ==> {
                &&& x is WhitePawn <==> v == 0 || (v == 12 && 24 <= sq < 32)
                &&& x is BlackPawn <==> v == 1 || (v == 12 && !(24 <= sq < 32))
                &&& x is WhiteKnight <==> v == 2
                &&& x is BlackKnight <==> v == 3
                &&& x is WhiteBishop <==> v == 4
                &&& x is BlackBishop <==> v == 5
                &&& x is WhiteRook <==> v == 6 || v == 13
                &&& x is BlackRook <==> v == 7 || v == 14
                &&& x is WhiteQueen <==> v == 8
                &&& x is BlackQueen <==> v == 9
                &&& x is WhiteKing <==> v == 10
                &&& x is BlackKing <==> v == 11 || v == 15
            }
        }),
{
    lemma_four_bits(d, sq);
}

/// Whether the four bits for the square `sq` are `v`.
pub open spec fn has_mark(d: Seq<u8>, v: int, sq: int) -> bool {
    0 <= sq < 64 && has_bit(d, sq) && with_bit(d, sq).len() < 32 && four_bits(d, sq) == v
}

/// Black is to move in a position that is read if the four bits of some square are 15.
pub proof fn law_side_read(d: Seq<u8>)
    requires
        d.len() >= 24,
    ensures
        decompressed(position_of_bytes(d)).side_to_move is Black <==> exists|sq: int| #[trigger]
            has_mark(d, 15, sq),
{
    let c = position_of_bytes(d);
    assert forall|sq: int| #[trigger] marked(c, 15, 64).contains(sq) == has_mark(d, 15, sq) by {
        if 0 <= sq < 64 {
            lemma_four_bits(d, sq);
        }
    }
    if exists|sq: int| #[trigger] has_mark(d, 15, sq) {
        let sq = choose|sq: int| #[trigger] has_mark(d, 15, sq);
        assert(marked(c, 15, 64).contains(sq));
    }
}

/// The en passant square of a position that is read lies behind the pawn whose four bits are 12, the
/// last one if there are several: below it on the fourth rank, above it elsewhere. Without such a
/// pawn there is none. On the last rank there is no square above, so such bytes cannot be read.
pub proof fn law_ep_read(d: Seq<u8>, sq: int)
    requires
        d.len() >= 24,
    ensures
        ({
            let ep = decompressed(position_of_bytes(d)).ep_square.idx;
            let last = has_mark(d, 12, sq) && forall|q: int|
                #[trigger] has_mark(d, 12, q) ==> q <= sq;
            &&& last && 24 <= sq < 32 ==> ep == sq - 8
            &&& last && !(24 <= sq < 32) ==> ep == sq + 8
            &&& (forall|q: int| !#[trigger] has_mark(d, 12, q)) ==> ep == 64
        }),
        ep_marks_inside(position_of_bytes(d)) == (forall|q: int| #[trigger] has_mark(d, 12, q) ==> q
            < 56),
{
    let c = position_of_bytes(d);
    assert forall|q: int|
        #![trigger marked(c, 12, 64).contains(q)]
        #![trigger has_mark(d, 12, q)]
        marked(c, 12, 64).contains(q) == has_mark(d, 12, q) by {
        if 0 <= q < 64 {
            lemma_four_bits(d, q);
        }
    }
    if has_mark(d, 12, sq) && forall|q: int| #[trigger] has_mark(d, 12, q) ==> q <= sq {
        lemma_ep_below(c, sq + 1, 64);
        assert(marked(c, 12, 64).contains(sq));
        assert(ep_below(c, sq + 1) == ep_below(c, 64));
    }
    if forall|q: int| !#[trigger] has_mark(d, 12, q) {
        lemma_ep_below(c, 0, 64);
    }
}

/// The castling rights of a position that is read: white may castle to the left if some square whose
/// four bits are 13 lies on a file to the left of its king, and to the right if one does not; black
/// likewise, by the bits 14. `k` is the square of the king, the only one of its side.
pub proof fn law_rights_read(d: Seq<u8>, c: Color, k: int)
    requires
        d.len() >= 24,
        only_at(decompressed(position_of_bytes(d)).board, king_of(c), k),
    ensures
        ({
            let r = decompressed(position_of_bytes(d)).castling_rights;
            &&& c is White ==> r.white_queen_side == exists|sq: int| #[trigger]
                has_mark(d, 13, sq) && sq % 8 < k % 8
            &&& c is White ==> r.white_king_side == exists|sq: int| #[trigger]
                has_mark(d, 13, sq) && sq % 8 >= k % 8
            &&& c is Black ==> r.black_queen_side == exists|sq: int| #[trigger]
                has_mark(d, 14, sq) && sq % 8 < k % 8
            &&& c is Black ==> r.black_king_side == exists|sq: int| #[trigger]
                has_mark(d, 14, sq) && sq % 8 >= k % 8
        }),
{
    let m = position_of_bytes(d);
    let n: u8 = if c is White {
        13
    } else {
        14
    };
    let rooks = marked(m, n, 64);
    lemma_king_at(decompressed(m).board, c, k);
    assert forall|sq: int|
        #![trigger rooks.contains(sq)]
        #![trigger has_mark(d, 13, sq)]
        #![trigger has_mark(d, 14, sq)]
        rooks.contains(sq) == has_mark(d, n as int, sq) by {
        if 0 <= sq < 64 {
            lemma_four_bits(d, sq);
        }
    }
    assert(some_on_wing(rooks, k, CastleType::QueenSide) == exists|sq: int| #[trigger]
        rooks.contains(sq) && sq % 8 < k % 8);
    assert(some_on_wing(rooks, k, CastleType::KingSide) == exists|sq: int| #[trigger]
        rooks.contains(sq) && sq % 8 >= k % 8);
}

/// Which entries have a stored form: those with at most 32 pieces whose move goes between two squares
/// of the board or nowhere.
pub proof fn law_packable_entry(e: EntryModel)
    ensures
        packable_entry(e) == (filled(e.pos.board, 64).len() <= 32 && (e.mv.from.idx == e.mv.to.idx
            || (e.mv.from.idx < 64 && e.mv.to.idx < 64))),
{
    law_fits(e.pos);
}

/// Which entries can be told from their stored form: those whose position and move can, with a ply
/// below 16384, a number of the move that follows from it, and a result from -2 to 1.
pub proof fn law_entry_storable(e: EntryModel)
    ensures
        entry_storable(e) == (storable(e.pos) && move_storable(e.mv) && e.pos.fullmove == e.ply / 2
            + 1 && e.ply < 16384 && (e.result == -2 || e.result == -1 || e.result == 0 || e.result
            == 1)),
{
}

/// An entry continues another one exactly if it is the next ply, its position is the one after the
/// move, and its result is the same one for the other side. Its move, its score and its draw score
/// may be any.
pub proof fn law_continuation(e: EntryModel, next: EntryModel)
    ensures
        e.is_continued_by(next) == (next.ply - e.ply == 1 && next.result + e.result == 0 && next.pos
            == e.pos.after_move(e.mv)),
{
}

/// An entry continues another one whatever the move, the score and the draw score of the second.
pub proof fn law_continuation_by_any_move(e: EntryModel, next: EntryModel, other: EntryModel)
    requires
        next.ply == other.ply,
        next.result == other.result,
        next.pos == other.pos,
    ensures
        e.is_continued_by(next) == e.is_continued_by(other),
{
}

/// Which entries can be compared: the result of the second can be negated, and if the two results
/// fit, the first is not the last ply.
pub proof fn law_comparable(e: EntryModel, next: EntryModel)
    ensures
        e.comparable(next) == (next.result != -32768 && (e.result + next.result != 0 || e.ply
            != 65535)),
{
}

} // verus!
