//! What is kept of a position in its stored form, square by square.
//!
//! The squares are written out here by their numbers, as in `chess::rules`.
use vstd::prelude::*;

use crate::chess::bitboard::{bit, count_below, lemma_count_below_strict, squares};
use crate::chess::castling_rights::CastleType;
use crate::chess::color::Color;
use crate::chess::piece::Piece;
use crate::chess::position::{lemma_first_from, occupied, PositionModel};
use crate::chess::rules::{king_of, lemma_king_at, only_at, rook_of};
use crate::common::compressed_position::{
    be64, compressed, decompressed, ep_marks_inside, fits, has_castling_rook, is_castling_rook,
    is_ep_pawn, law_position_stored_again, lemma_board_stored, lemma_ep_below, lemma_marked,
    lemma_occupied_word, lemma_rights_read, lemma_side_kept, lemma_stored, marked, position_bytes,
    storable, stored, wing,
};

verus! {

/// The squares below `n` that are not empty.
pub open spec fn filled(board: Seq<Piece>, n: int) -> Set<int> {
    Set::new(|i: int| 0 <= i < n && !(board[i] is Empty))
}

/// Counting the occupied squares gives the size of their set.
proof fn lemma_filled(board: Seq<Piece>, n: int)
    requires
        0 <= n <= 64,
    ensures
        filled(board, n).finite(),
        filled(board, n).len() == count_below(occupied(board), n),
    decreases n,
{
    if n == 0 {
        assert(filled(board, n) =~= Set::empty());
    } else {
        lemma_filled(board, n - 1);
        if board[n - 1] is Empty {
            assert(filled(board, n) =~= filled(board, n - 1));
        } else {
            assert(filled(board, n) =~= filled(board, n - 1).insert(n - 1));
        }
    }
}

/// A position fits if at most 32 of its squares are not empty.
pub proof fn law_fits(p: PositionModel)
    ensures
        fits(p) == (filled(p.board, 64).len() <= 32),
{
    lemma_filled(p.board, 64);
}

/// Every position with at most 32 pieces can be stored and read, and its board is read back. The
/// clocks that are read are those of the start of a game.
pub proof fn law_board_read_back(p: PositionModel)
    requires
        p.board.len() == 64,
        filled(p.board, 64).len() <= 32,
    ensures
        fits(p),
        ep_marks_inside(compressed(p)),
        decompressed(compressed(p)).board == p.board,
        decompressed(compressed(p)).rule50_counter == 0,
        decompressed(compressed(p)).fullmove == 1,
{
    law_fits(p);
    law_position_stored_again(p);
    lemma_board_stored(p);
}

/// The side to move is read back if there is a black king; without one, white is to move. `k` is
/// any square.
pub proof fn law_side_read_back(p: PositionModel, k: int)
    requires
        p.board.len() == 64,
        filled(p.board, 64).len() <= 32,
        0 <= k < 64,
    ensures
        p.board[k] is BlackKing ==> decompressed(compressed(p)).side_to_move == p.side_to_move,
        (forall|sq: int| 0 <= sq < 64 ==> !(#[trigger] p.board[sq] is BlackKing)) ==> decompressed(
            compressed(p),
        ).side_to_move is White,
{
    law_fits(p);
    if p.board[k] is BlackKing {
        lemma_side_kept(p, k);
    }
    if forall|sq: int| 0 <= sq < 64 ==> !(#[trigger] p.board[sq] is BlackKing) {
        assert forall|sq: int| !#[trigger] marked(compressed(p), 15, 64).contains(sq) by {
            lemma_marked(p, sq);
        }
    }
}

/// Whether the en passant square `ep` lies behind a pawn that has just gone two squares: on the
/// third rank below a white pawn, or on the sixth above a black one.
pub open spec fn behind_pawn(board: Seq<Piece>, ep: int) -> bool {
    ||| 16 <= ep < 24 && board[ep + 8] is WhitePawn
    ||| 40 <= ep < 48 && board[ep - 8] is BlackPawn
}

/// The en passant square is read back if it lies behind a pawn of either side that has just gone
/// two squares; if it does not, none is read.
pub proof fn law_ep_read_back(p: PositionModel)
    requires
        p.board.len() == 64,
        filled(p.board, 64).len() <= 32,
    ensures
        behind_pawn(p.board, p.ep_square.idx as int) ==> decompressed(compressed(p)).ep_square
            == p.ep_square,
        !behind_pawn(p.board, p.ep_square.idx as int) ==> decompressed(compressed(p)).ep_square.idx
            == 64,
{
    let c = compressed(p);
    let ep = p.ep_square.idx as int;
    law_fits(p);
    if behind_pawn(p.board, ep) {
        let s = if ep < 32 {
            ep + 8
        } else {
            ep - 8
        };
        lemma_marked(p, s);
        assert forall|sq: int| s < sq < 64 implies !#[trigger] marked(c, 12, 64).contains(sq) by {
            lemma_marked(p, sq);
        }
        lemma_ep_below(c, s + 1, 64);
    } else {
        assert forall|sq: int| 0 <= sq < 64 implies !#[trigger] marked(c, 12, 64).contains(sq) by {
            lemma_marked(p, sq);
        }
        lemma_ep_below(c, 0, 64);
    }
}

/// Whether a rook `x` stands on the rank of the square `k`, to its left if `left` holds and to its
/// right otherwise.
pub open spec fn rook_beside(board: Seq<Piece>, x: Piece, k: int, left: bool) -> bool {
    exists|sq: int|
        0 <= sq < 64 && #[trigger] board[sq] == x && sq / 8 == k / 8 && sq != k && (left == (sq
            < k))
}

/// A castling rook is a rook beside the king, where its side may castle.
proof fn lemma_rook_beside(p: PositionModel, c: Color, k: int, left: bool)
    requires
        only_at(p.board, king_of(c), k),
    ensures
        ({
            let t = if left {
                CastleType::QueenSide
            } else {
                CastleType::KingSide
            };
            has_castling_rook(p, c, t) == (p.castling_rights.spec_allows(c, t) && rook_beside(
                p.board,
                rook_of(c),
                k,
                left,
            ))
        }),
{
    let t = if left {
        CastleType::QueenSide
    } else {
        CastleType::KingSide
    };
    lemma_king_at(p.board, c, k);
    if has_castling_rook(p, c, t) {
        let sq = choose|sq: int|
            0 <= sq < 64 && #[trigger] is_castling_rook(p, c, sq) && wing(sq, k) == t;
        assert(p.board[sq] == rook_of(c));
    }
    if p.castling_rights.spec_allows(c, t) && rook_beside(p.board, rook_of(c), k, left) {
        let sq = choose|sq: int|
            0 <= sq < 64 && #[trigger] p.board[sq] == rook_of(c) && sq / 8 == k / 8 && sq != k && (
            left == (sq < k));
        assert(is_castling_rook(p, c, sq));
        assert(wing(sq, k) == t);
    }
}

/// A right to castle is read back if a rook of its side stands on that side of the king, on its
/// rank; otherwise it is not read. `k` is the square of the king, the only one of its side.
pub proof fn law_rights_read_back(p: PositionModel, c: Color, k: int)
    requires
        p.board.len() == 64,
        filled(p.board, 64).len() <= 32,
        only_at(p.board, king_of(c), k),
    ensures
        ({
            let read = decompressed(compressed(p)).castling_rights;
            let left = rook_beside(p.board, rook_of(c), k, true);
            let right = rook_beside(p.board, rook_of(c), k, false);
            let r = p.castling_rights;
            &&& c is White ==> read.white_queen_side == (r.white_queen_side && left)
            &&& c is White ==> read.white_king_side == (r.white_king_side && right)
            &&& c is Black ==> read.black_queen_side == (r.black_queen_side && left)
            &&& c is Black ==> read.black_king_side == (r.black_king_side && right)
        }),
{
    law_fits(p);
    lemma_rights_read(p, c, CastleType::QueenSide);
    lemma_rights_read(p, c, CastleType::KingSide);
    lemma_rook_beside(p, c, k, true);
    lemma_rook_beside(p, c, k, false);
}

/// No right to castle is read for a side without a king.
pub proof fn law_no_rights_without_king(p: PositionModel)
    requires
        p.board.len() == 64,
        filled(p.board, 64).len() <= 32,
    ensures
        ({
            let read = decompressed(compressed(p)).castling_rights;
            &&& (forall|sq: int| 0 <= sq < 64 ==> #[trigger] p.board[sq] != Piece::WhiteKing)
                ==> !read.white_queen_side && !read.white_king_side
            &&& (forall|sq: int| 0 <= sq < 64 ==> #[trigger] p.board[sq] != Piece::BlackKing)
                ==> !read.black_queen_side && !read.black_king_side
        }),
{
    law_fits(p);
    lemma_rights_read(p, Color::White, CastleType::QueenSide);
    lemma_rights_read(p, Color::White, CastleType::KingSide);
    lemma_rights_read(p, Color::Black, CastleType::QueenSide);
    lemma_rights_read(p, Color::Black, CastleType::KingSide);
    lemma_first_from(p.board, Piece::WhiteKing, 0);
    lemma_first_from(p.board, Piece::BlackKing, 0);
}

/// A position with one king on each side can be told from its stored form, but for its clocks, if
/// it has at most 32 pieces, its en passant square, if it has one, lies behind a pawn that has just
/// gone two squares, and for each castling right there is a rook on that side of the king.
pub proof fn law_storable(p: PositionModel, white_king: int, black_king: int)
    requires
        only_at(p.board, Piece::WhiteKing, white_king),
        only_at(p.board, Piece::BlackKing, black_king),
    ensures
        ({
            let b = p.board;
            let r = p.castling_rights;
            storable(p) == {
                &&& b.len() == 64
                &&& filled(b, 64).len() <= 32
                &&& p.ep_square.idx == 64 || behind_pawn(b, p.ep_square.idx as int)
                &&& r.white_queen_side ==> rook_beside(b, Piece::WhiteRook, white_king, true)
                &&& r.white_king_side ==> rook_beside(b, Piece::WhiteRook, white_king, false)
                &&& r.black_queen_side ==> rook_beside(b, Piece::BlackRook, black_king, true)
                &&& r.black_king_side ==> rook_beside(b, Piece::BlackRook, black_king, false)
            }
        }),
{
    let r = p.castling_rights;
    let ep = p.ep_square.idx as int;
    law_fits(p);
    lemma_rook_beside(p, Color::White, white_king, true);
    lemma_rook_beside(p, Color::White, white_king, false);
    lemma_rook_beside(p, Color::Black, black_king, true);
    lemma_rook_beside(p, Color::Black, black_king, false);
    lemma_king_at(p.board, Color::Black, black_king);
    if behind_pawn(p.board, ep) {
        let s = if ep < 32 {
            ep + 8
        } else {
            ep - 8
        };
        assert(is_ep_pawn(p, s));
    }
    if storable(p) {
        assert(r.spec_allows(Color::White, CastleType::QueenSide) ==> has_castling_rook(
            p,
            Color::White,
            CastleType::QueenSide,
        ));
        assert(r.spec_allows(Color::White, CastleType::KingSide) ==> has_castling_rook(
            p,
            Color::White,
            CastleType::KingSide,
        ));
        assert(r.spec_allows(Color::Black, CastleType::QueenSide) ==> has_castling_rook(
            p,
            Color::Black,
            CastleType::QueenSide,
        ));
        assert(r.spec_allows(Color::Black, CastleType::KingSide) ==> has_castling_rook(
            p,
            Color::Black,
            CastleType::KingSide,
        ));
    }
}

/// The first eight bytes of a stored position are its ranks from the last to the first: in each, the
/// bits from the lowest up tell which squares are not empty, from the first file on.
pub proof fn law_occupied_bytes(p: PositionModel, sq: int)
    requires
        0 <= sq < 64,
    ensures
        ({
            let b = position_bytes(compressed(p))[7 - sq / 8];
            (b >> ((sq % 8) as u8)) % 2 == 1 <==> !(p.board[sq] is Empty)
        }),
{
    let w: u64 = compressed(p).occupied;
    lemma_occupied_word(p);
    assert(squares(w).contains(sq) == occupied(p.board).contains(sq));
    assert(bit(w, sq) == !(p.board[sq] is Empty));
    let r: u64 = (sq / 8) as u64;
    let f: u8 = (sq % 8) as u8;
    let i: u64 = sq as u64;
    let b: u8 = position_bytes(compressed(p))[7 - sq / 8];
    let up: u64 = (56 - 8 * (7 - sq / 8)) as u64;
    assert(b == be64(w)[7 - sq / 8]);
    assert(b == (w >> up) as u8);
    assert(((b >> f) % 2 == 1) == ((w >> i) & 1 == 1)) by (bit_vector)
        requires
            b == (w >> up) as u8,
            up == 8 * r,
            r < 8,
            f < 8,
            i == 8 * r + f,
    ;
}

/// The four bits for the piece on `sq`. The pieces are stored in the order of their squares, two to
/// a byte, the first of the two in its low half. The four bits are 12 for a pawn that has just gone
/// over the en passant square, 13 and 14 for a white and a black rook on that side of the king to
/// which it may castle, 15 for the black king if black is to move, and the number of the piece
/// otherwise. `white_king` and `black_king` are the squares of the kings, the only ones of their
/// sides.
pub proof fn law_half_bytes(p: PositionModel, sq: int, white_king: int, black_king: int)
    requires
        p.board.len() == 64,
        filled(p.board, 64).len() <= 32,
        0 <= sq < 64,
        !(p.board[sq] is Empty),
        only_at(p.board, Piece::WhiteKing, white_king),
        only_at(p.board, Piece::BlackKing, black_king),
    ensures
        ({
            let n = filled(p.board, sq).len() as int;
            let b = position_bytes(compressed(p))[8 + n / 2];
            let v = if n % 2 == 0 {
                b % 16
            } else {
                b / 16
            };
            let r = p.castling_rights;
            let ep = p.ep_square.idx as int;
            v == match p.board[sq] {
                Piece::WhitePawn => if 24 <= sq < 32 && ep == sq - 8 {
                    12u8
                } else {
                    0
                },
                Piece::BlackPawn => if 32 <= sq < 40 && ep == sq + 8 {
                    12
                } else {
                    1
                },
                Piece::WhiteKnight => 2,
                Piece::BlackKnight => 3,
                Piece::WhiteBishop => 4,
                Piece::BlackBishop => 5,
                Piece::WhiteRook => if sq / 8 == white_king / 8 && ((sq < white_king
                    && r.white_queen_side) || (sq > white_king && r.white_king_side)) {
                    13
                } else {
                    6
                },
                Piece::BlackRook => if sq / 8 == black_king / 8 && ((sq < black_king
                    && r.black_queen_side) || (sq > black_king && r.black_king_side)) {
                    14
                } else {
                    7
                },
                Piece::WhiteQueen => 8,
                Piece::BlackQueen => 9,
                Piece::WhiteKing => 10,
                Piece::BlackKing => if p.side_to_move is Black {
                    15
                } else {
                    11
                },
                Piece::Empty => 0,
            }
        }),
{
    let c = compressed(p);
    law_fits(p);
    lemma_filled(p.board, sq);
    lemma_occupied_word(p);
    lemma_stored(p, sq);
    lemma_king_at(p.board, Color::White, white_king);
    lemma_king_at(p.board, Color::Black, black_king);
    let n = filled(p.board, sq).len() as int;
    assert(n == count_below(squares(c.occupied), sq));
    assert(occupied(p.board).contains(sq));
    assert(n / 2 < 16) by {
        lemma_filled(p.board, 64);
        lemma_count_below_strict(occupied(p.board), sq, 64);
    }
    assert(position_bytes(c)[8 + n / 2] == c.packed[n / 2]);
}

} // verus!
