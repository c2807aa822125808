//! The moves of each piece, square by square.
//!
//! The squares are written out here by their numbers, as in `chess::rules`.
use vstd::prelude::*;

use crate::chess::bitboard::{count, lemma_count_below_strict, lemma_nth};
use crate::chess::castling_rights::CastlingRights;
use crate::chess::chess_move::Move;
use crate::chess::color::Color;
use crate::chess::piece::Piece;
use crate::chess::piecetype::PieceType;
use crate::chess::position::PositionModel;
use crate::chess::rules::{
    clear, in_front, is_black, is_of, is_outer_rook, is_white, king_of, law_castling_rook,
    law_en_passant, law_not_sliding, law_plain_move, law_sliding, law_stepping,
    law_turn_and_clocks, lemma_king_at, lemma_ray_target, on_ray, only_at, other, pawn_of, ray,
    rook_of,
};
use crate::common::move_numbers::{
    destinations, goes, move_of, num_moves, number_of, promotes, pseudo_legal,
};

verus! {

/// A move goes from a square of the board, which holds a piece of the side to move, to another
/// square of the board.
pub proof fn law_own_piece_moves(p: PositionModel, m: Move)
    requires
        pseudo_legal(p, m),
    ensures
        m.from.idx < 64,
        m.to.idx < 64,
        is_of(p.board[m.from.idx as int], p.side_to_move),
{
}

/// The moves of a white pawn: one square up to an empty square, from the second rank two squares up
/// over an empty square to another, or one square diagonally up, to a black piece or to the en
/// passant square. From the seventh rank it becomes a knight, a bishop, a rook or a queen.
pub proof fn law_white_pawn(p: PositionModel, m: Move)
    requires
        p.side_to_move is White,
        m.from.idx < 64,
        p.board[m.from.idx as int] is WhitePawn,
    ensures
        ({
            let f = m.from.idx as int;
            let t = m.to.idx as int;
            let one = t == f + 8 && p.board[f + 8] is Empty;
            let two = 8 <= f < 16 && t == f + 16 && p.board[f + 8] is Empty && p.board[f + 16]
                is Empty;
            let diagonal = (t == f + 7 && f % 8 != 0) || (t == f + 9 && f % 8 != 7);
            let takes = diagonal && (is_black(p.board[t]) || p.ep_square.idx == t);
            let kind = if 48 <= f < 56 {
                &&& m.mtype is Promotion
                &&& m.promoted is WhiteKnight || m.promoted is WhiteBishop || m.promoted
                    is WhiteRook || m.promoted is WhiteQueen
            } else {
                &&& m.promoted is Empty
                &&& p.ep_square.idx == t ==> m.mtype is EnPassant
                &&& p.ep_square.idx != t ==> m.mtype is Normal
            };
            pseudo_legal(p, m) == (t < 64 && (one || two || takes) && kind)
        }),
{
    let f = m.from.idx as int;
    let t = m.to.idx as int;
    assert(destinations(p, f).contains(t) == (0 <= t < 64 && goes(p, f, t)));
}

/// The moves of a black pawn: those of a white one, seen from the other side of the board.
pub proof fn law_black_pawn(p: PositionModel, m: Move)
    requires
        p.side_to_move is Black,
        m.from.idx < 64,
        p.board[m.from.idx as int] is BlackPawn,
    ensures
        ({
            let f = m.from.idx as int;
            let t = m.to.idx as int;
            let one = t == f - 8 && p.board[f - 8] is Empty;
            let two = 48 <= f < 56 && t == f - 16 && p.board[f - 8] is Empty && p.board[f - 16]
                is Empty;
            let diagonal = (t == f - 9 && f % 8 != 0) || (t == f - 7 && f % 8 != 7);
            let takes = diagonal && (is_white(p.board[t]) || p.ep_square.idx == t);
            let kind = if 8 <= f < 16 {
                &&& m.mtype is Promotion
                &&& m.promoted is BlackKnight || m.promoted is BlackBishop || m.promoted
                    is BlackRook || m.promoted is BlackQueen
            } else {
                &&& m.promoted is Empty
                &&& p.ep_square.idx == t ==> m.mtype is EnPassant
                &&& p.ep_square.idx != t ==> m.mtype is Normal
            };
            pseudo_legal(p, m) == (t < 64 && (one || two || takes) && kind)
        }),
{
    let f = m.from.idx as int;
    let t = m.to.idx as int;
    assert(destinations(p, f).contains(t) == (0 <= t < 64 && goes(p, f, t)));
}

/// The moves of a knight: to any square that is two files and one rank or one file and two ranks
/// away and holds no piece of its own side.
pub proof fn law_knight(p: PositionModel, m: Move)
    requires
        m.from.idx < 64,
        match p.side_to_move {
            Color::White => p.board[m.from.idx as int] is WhiteKnight,
            Color::Black => p.board[m.from.idx as int] is BlackKnight,
        },
    ensures
        ({
            let t = m.to.idx as int;
            let f = t % 8 - m.from.idx as int % 8;
            let r = t / 8 - m.from.idx as int / 8;
            pseudo_legal(p, m) == (t < 64 && f * f + r * r == 5 && !is_of(
                p.board[t],
                p.side_to_move,
            ) && m.mtype is Normal && m.promoted is Empty)
        }),
{
    let f = m.from.idx as int;
    let t = m.to.idx as int;
    assert(destinations(p, f).contains(t) == (0 <= t < 64 && goes(p, f, t)));
    if t < 64 {
        law_stepping(p.board, f, t);
    }
}

/// The moves of a king, castling aside: to any square next to it that holds no piece of its own
/// side.
pub proof fn law_king(p: PositionModel, m: Move)
    requires
        m.from.idx < 64,
        p.board[m.from.idx as int] == king_of(p.side_to_move),
        !(m.mtype is Castle),
    ensures
        ({
            let t = m.to.idx as int;
            let f = t % 8 - m.from.idx as int % 8;
            let r = t / 8 - m.from.idx as int / 8;
            pseudo_legal(p, m) == (t < 64 && m.to != m.from && -1 <= f <= 1 && -1 <= r <= 1
                && !is_of(p.board[t], p.side_to_move) && m.mtype is Normal && m.promoted is Empty)
        }),
{
    let f = m.from.idx as int;
    let t = m.to.idx as int;
    assert(destinations(p, f).contains(t) == (0 <= t < 64 && goes(p, f, t)));
    if t < 64 {
        law_stepping(p.board, f, t);
    }
}

/// The moves of a rook, a bishop and a queen along a ray: to a square that holds no piece of its own
/// side and to which the way is clear, for a rook in a straight line, for a bishop on a diagonal and
/// for a queen on either.
pub proof fn law_slider(p: PositionModel, m: Move, df: int, dr: int, n: int)
    requires
        on_ray(m.from.idx as int, df, dr, n),
        m.to.idx == ray(m.from.idx as int, df, dr, n),
    ensures
        ({
            let x = p.board[m.from.idx as int];
            let free = clear(p.board, m.from.idx as int, df, dr, n) && !is_of(
                p.board[m.to.idx as int],
                p.side_to_move,
            ) && m.mtype is Normal && m.promoted is Empty;
            let straight = df == 0 || dr == 0;
            &&& x is WhiteRook && p.side_to_move is White ==> pseudo_legal(p, m) == (straight
                && free)
            &&& x is BlackRook && p.side_to_move is Black ==> pseudo_legal(p, m) == (straight
                && free)
            &&& x is WhiteBishop && p.side_to_move is White ==> pseudo_legal(p, m) == (!straight
                && free)
            &&& x is BlackBishop && p.side_to_move is Black ==> pseudo_legal(p, m) == (!straight
                && free)
            &&& x is WhiteQueen && p.side_to_move is White ==> pseudo_legal(p, m) == free
            &&& x is BlackQueen && p.side_to_move is Black ==> pseudo_legal(p, m) == free
        }),
{
    let f = m.from.idx as int;
    let t = m.to.idx as int;
    assert(destinations(p, f).contains(t) == (0 <= t < 64 && goes(p, f, t)));
    lemma_ray_target(f, df, dr, n);
    law_sliding(p.board, f, df, dr, n);
}

/// A rook, a bishop and a queen have no other moves: none to a square that shares neither a file nor
/// a rank nor a diagonal with theirs, nor to their own.
pub proof fn law_slider_stays_on_rays(p: PositionModel, m: Move)
    requires
        m.from.idx < 64,
        ({
            let x = p.board[m.from.idx as int];
            ||| x is WhiteRook || x is WhiteBishop || x is WhiteQueen
            ||| x is BlackRook || x is BlackBishop || x is BlackQueen
        }),
        ({
            let a = m.from.idx as int;
            let b = m.to.idx as int;
            ||| a == b
            ||| a % 8 != b % 8 && a / 8 != b / 8 && a % 8 + a / 8 != b % 8 + b / 8 && a % 8 - a / 8
                != b % 8 - b / 8
        }),
    ensures
        !pseudo_legal(p, m),
{
    let f = m.from.idx as int;
    let t = m.to.idx as int;
    assert(destinations(p, f).contains(t) == (0 <= t < 64 && goes(p, f, t)));
    if t < 64 {
        law_not_sliding(p.board, f, t);
    }
}

/// The castlings of a king, which is the only one of its side: to the square of the outermost rook
/// of its side on its rank, to its left or to its right, if the side still has the right to castle
/// that way.
pub proof fn law_castles(p: PositionModel, m: Move)
    requires
        m.mtype is Castle,
        only_at(p.board, king_of(p.side_to_move), m.from.idx as int),
    ensures
        ({
            let c = p.side_to_move;
            let k = m.from.idx as int;
            let t = m.to.idx as int;
            let left = match c {
                Color::White => p.castling_rights.white_queen_side,
                Color::Black => p.castling_rights.black_queen_side,
            };
            let right = match c {
                Color::White => p.castling_rights.white_king_side,
                Color::Black => p.castling_rights.black_king_side,
            };
            pseudo_legal(p, m) == (m.promoted is Empty && ((left && is_outer_rook(
                p.board,
                rook_of(c),
                k,
                true,
                t,
            )) || (right && is_outer_rook(p.board, rook_of(c), k, false, t))))
        }),
{
    let k = m.from.idx as int;
    let t = m.to.idx as int;
    let c = p.side_to_move;
    lemma_king_at(p.board, c, k);
    law_castling_rook(p.board, c, k, true, t);
    law_castling_rook(p.board, c, k, false, t);
}

/// An en passant capture takes the pawn that has just gone two squares: after the move `m` of a pawn
/// by two squares and the en passant capture `reply`, that pawn is gone, the capturing pawn stands
/// on the square that it had gone over, and nothing else has changed. `sq` is any square.
pub proof fn law_en_passant_reply(p: PositionModel, m: Move, reply: Move, sq: int)
    requires
        p.board.len() == 64,
        pseudo_legal(p, m),
        p.board[m.from.idx as int] == pawn_of(p.side_to_move),
        match p.side_to_move {
            Color::White => m.to.idx == m.from.idx + 16,
            Color::Black => m.from.idx == m.to.idx + 16,
        },
        m.mtype is Normal,
        pseudo_legal(p.after_move(m), reply),
        reply.mtype is EnPassant,
        0 <= sq < 64,
    ensures
        ({
            let q = p.after_move(m);
            let r = q.after_move(reply);
            let over = in_front(p.side_to_move, m.from.idx as int);
            let taker = reply.from.idx as int;
            &&& reply.to.idx == over
            &&& taker == m.to.idx - 1 || taker == m.to.idx + 1
            &&& q.board[m.to.idx as int] == pawn_of(p.side_to_move)
            &&& q.board[taker] == pawn_of(other(p.side_to_move))
            &&& r.board.len() == 64
            &&& sq == m.to.idx ==> r.board[sq] is Empty
            &&& sq == taker ==> r.board[sq] is Empty
            &&& sq == over ==> r.board[sq] == pawn_of(other(p.side_to_move))
            &&& sq != m.to.idx && sq != taker && sq != over ==> r.board[sq] == q.board[sq]
        }),
{
    let q = p.after_move(m);
    let c = p.side_to_move;
    let from = m.from.idx as int;
    let to = m.to.idx as int;
    let over = in_front(c, from);
    match c {
        Color::White => law_white_pawn(p, m),
        Color::Black => law_black_pawn(p, m),
    }
    law_turn_and_clocks(p, m);
    law_plain_move(p, m, to);
    law_plain_move(p, m, over);
    law_own_piece_moves(q, reply);
    assert(q.ep_square.idx == over || q.ep_square.idx == 64);
    assert(q.board[reply.from.idx as int] == pawn_of(other(c)));
    match c {
        Color::White => law_black_pawn(q, reply),
        Color::Black => law_white_pawn(q, reply),
    }
    law_en_passant(q, reply, c is Black, sq);
}

/// Where a move stands among those of its piece: by the square that it goes to, and castlings behind
/// all others, that to the left first.
pub open spec fn place_of(m: Move) -> int {
    if !(m.mtype is Castle) {
        m.to.idx as int
    } else if m.to.idx < m.from.idx {
        64
    } else {
        65
    }
}

/// Where a promotion stands among those to the same square: knight, bishop, rook, queen.
pub open spec fn promotion_place(x: Piece) -> int {
    match x {
        Piece::WhiteBishop | Piece::BlackBishop => 1,
        Piece::WhiteRook | Piece::BlackRook => 2,
        Piece::WhiteQueen | Piece::BlackQueen => 3,
        _ => 0,
    }
}

/// The moves of a piece are numbered in the order of the squares that they go to, the promotions to
/// one square as knight, bishop, rook and queen, and castlings behind all others, that to the left
/// first.
pub proof fn law_move_order(p: PositionModel, m: Move, n: Move)
    requires
        pseudo_legal(p, m),
        pseudo_legal(p, n),
        m.from == n.from,
    ensures
        number_of(p, m) < number_of(p, n) <==> place_of(m) < place_of(n) || (place_of(m)
            == place_of(n) && promotion_place(m.promoted) < promotion_place(n.promoted)),
{
    let d = destinations(p, m.from.idx as int);
    let a = m.to.idx as int;
    let b = n.to.idx as int;
    if d.contains(a) {
        lemma_count_below_strict(d, a, 64);
        if a < b {
            lemma_count_below_strict(d, a, b);
        }
    }
    if d.contains(b) {
        lemma_count_below_strict(d, b, 64);
        if b < a {
            lemma_count_below_strict(d, b, a);
        }
    }
}

/// The numbers of the moves of a piece leave none out: the move with a number is a move of that
/// piece, and has that number. A king is to be the only one of its side.
pub proof fn law_move_of_number(p: PositionModel, from: int, k: int)
    requires
        0 <= from < 64,
        0 <= k,
        is_of(p.board[from], p.side_to_move),
        p.board[from] == king_of(p.side_to_move) ==> only_at(
            p.board,
            king_of(p.side_to_move),
            from,
        ),
        move_of(p, from, k) is Some,
    ensures
        pseudo_legal(p, move_of(p, from, k)->0),
        move_of(p, from, k)->0.from.idx == from,
        number_of(p, move_of(p, from, k)->0) == k,
{
    let c = p.side_to_move;
    let d = destinations(p, from);
    let m = move_of(p, from, k)->0;
    if promotes(p, from) {
        assert(k / 4 < count(d));
        lemma_nth(d, k / 4);
        let q = k % 4;
        assert(PieceType::spec_promotion(q).spec_promotion_index() == q);
        assert(m.promoted.spec_piece_type() == PieceType::spec_promotion(q));
    } else if p.board[from].spec_piece_type() is King && k >= count(d) {
        assert(p.board[from] == king_of(c));
        lemma_king_at(p.board, c, from);
        law_castling_rook(p.board, c, from, true, 0);
        law_castling_rook(p.board, c, from, false, 0);
    } else {
        lemma_nth(d, k);
    }
}

/// A piece other than a king has a move for each number below how many it has, and for no other.
pub proof fn law_num_moves(p: PositionModel, from: int, k: int)
    requires
        0 <= from < 64,
        0 <= k,
        p.board[from] != Piece::WhiteKing,
        p.board[from] != Piece::BlackKing,
    ensures
        move_of(p, from, k) is Some <==> k < num_moves(p, from),
{
}

/// The moves of a king are counted with one for each castling right of its side.
pub proof fn law_num_king_moves(p: PositionModel, from: int)
    requires
        0 <= from < 64,
        p.board[from] == king_of(p.side_to_move),
    ensures
        ({
            let r = p.castling_rights;
            let none = CastlingRights {
                white_king_side: false,
                white_queen_side: false,
                black_king_side: false,
                black_queen_side: false,
            };
            let left = match p.side_to_move {
                Color::White => r.white_queen_side,
                Color::Black => r.black_queen_side,
            };
            let right = match p.side_to_move {
                Color::White => r.white_king_side,
                Color::Black => r.black_king_side,
            };
            num_moves(p, from) == num_moves(PositionModel { castling_rights: none, ..p }, from)
                + if left && right {
                2int
            } else if left || right {
                1
            } else {
                0
            }
        }),
{
    let none = CastlingRights {
        white_king_side: false,
        white_queen_side: false,
        black_king_side: false,
        black_queen_side: false,
    };
    let q = PositionModel { castling_rights: none, ..p };
    assert(destinations(p, from) =~= destinations(q, from));
}

/// Only a king castles.
pub proof fn law_only_kings_castle(p: PositionModel, m: Move)
    requires
        pseudo_legal(p, m),
        m.mtype is Castle,
    ensures
        p.board[m.from.idx as int] == king_of(p.side_to_move),
{
}

} // verus!
