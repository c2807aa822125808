//! The moves of a piece, numbered by where they lead.
use vstd::prelude::*;

use crate::chess::attacks::{forward, pawn_attacks, pawn_attacks_exec, reaches, reaches_exec};
use crate::chess::bitboard::{
    count, count_below, lemma_count_below_bounds, lemma_nth_of_count, nth, Bitboard,
};
use crate::chess::castling_rights::CastleType;
use crate::chess::chess_move::{Move, MoveType};
use crate::chess::color::Color;
use crate::chess::coords::{rank_of, Square};
use crate::chess::piece::Piece;
use crate::chess::piecetype::PieceType;
use crate::chess::position::{castling_rook, king_square, Position, PositionModel};

verus! {

/// The rank on which the pawns of side `c` start.
pub open spec fn start_rank(c: Color) -> int {
    match c {
        Color::White => 1,
        Color::Black => 6,
    }
}

/// The rank from which the pawns of side `c` promote.
pub open spec fn promotion_rank(c: Color) -> int {
    match c {
        Color::White => 6,
        Color::Black => 1,
    }
}

/// Whether a pawn of the side to move on `from` may go to `to`: it captures, or advances by one
/// square, or by two from where it starts.
pub open spec fn pawn_goes(p: PositionModel, from: int, to: int) -> bool {
    let c = p.side_to_move;
    let step = 8 * forward(c);
    ||| pawn_attacks(c, from, to) && (p.board[to].belongs_to(c.spec_opposite()) || p.ep_square.idx
        == to)
    ||| to == from + step && p.board[to] == Piece::Empty
    ||| to == from + 2 * step && rank_of(from) == start_rank(c) && p.board[from + step]
        == Piece::Empty && p.board[to] == Piece::Empty
}

/// Whether the piece of the side to move on `from` may go to `to`, castling aside, and whether or
/// not that leaves its king attacked.
pub open spec fn goes(p: PositionModel, from: int, to: int) -> bool {
    let pt = p.board[from].spec_piece_type();
    if pt is Pawn {
        pawn_goes(p, from, to)
    } else {
        reaches(p.board, pt, from, to) && !p.board[to].belongs_to(p.side_to_move)
    }
}

/// The squares to which the piece on `from` may go.
pub open spec fn destinations(p: PositionModel, from: int) -> Set<int> {
    Set::new(|to: int| 0 <= to < 64 && goes(p, from, to))
}

/// Whether the piece on `from` is a pawn that promotes with its next move.
pub open spec fn promotes(p: PositionModel, from: int) -> bool {
    p.board[from].spec_piece_type() is Pawn && rank_of(from) == promotion_rank(p.side_to_move)
}

/// How many moves the piece on `from` has.
pub open spec fn num_moves(p: PositionModel, from: int) -> nat {
    let n = count(destinations(p, from));
    if promotes(p, from) {
        4 * n
    } else if p.board[from].spec_piece_type() is King {
        n + p.castling_rights.spec_count(p.side_to_move)
    } else {
        n
    }
}

/// The move number `k` of the piece of the side to move on `from`. There is none past the last
/// number, nor for a castling without a rook.
pub open spec fn move_of(p: PositionModel, from: int, k: int) -> Option<Move> {
    let c = p.side_to_move;
    let d = destinations(p, from);
    let pt = p.board[from].spec_piece_type();
    let start = Square { idx: from as u8 };
    if k >= num_moves(p, from) {
        None
    } else if promotes(p, from) {
        Some(
            Move {
                from: start,
                to: Square { idx: nth(d, k / 4) as u8 },
                mtype: MoveType::Promotion,
                promoted: Piece::spec_new(PieceType::spec_promotion(k % 4), c),
            },
        )
    } else if pt is King && k >= count(d) {
        let t = if k == count(d) && p.castling_rights.spec_allows(c, CastleType::QueenSide) {
            CastleType::QueenSide
        } else {
            CastleType::KingSide
        };
        let rook = castling_rook(p.board, c, t);
        if rook < 64 {
            Some(
                Move {
                    from: start,
                    to: Square { idx: rook as u8 },
                    mtype: MoveType::Castle,
                    promoted: Piece::Empty,
                },
            )
        } else {
            None
        }
    } else {
        let to = nth(d, k);
        Some(
            Move {
                from: start,
                to: Square { idx: to as u8 },
                mtype: if pt is Pawn && p.ep_square.idx == to {
                    MoveType::EnPassant
                } else {
                    MoveType::Normal
                },
                promoted: Piece::Empty,
            },
        )
    }
}

/// The wing to which the castling `m` goes.
pub open spec fn castle_wing(m: Move) -> CastleType {
    if m.to.idx < m.from.idx {
        CastleType::QueenSide
    } else {
        CastleType::KingSide
    }
}

/// The number of the move `m` among the moves of its piece.
pub open spec fn number_of(p: PositionModel, m: Move) -> nat {
    let c = p.side_to_move;
    let from = m.from.idx as int;
    let d = destinations(p, from);
    if promotes(p, from) {
        4 * count_below(d, m.to.idx as int)
            + m.promoted.spec_piece_type().spec_promotion_index() as nat
    } else if m.mtype is Castle {
        count(d) + if castle_wing(m) is KingSide && p.castling_rights.spec_allows(
            c,
            CastleType::QueenSide,
        ) {
            1nat
        } else {
            0
        }
    } else {
        count_below(d, m.to.idx as int)
    }
}

/// Whether `m` is a move of the side to move, apart from whether it leaves its king attacked: a
/// piece of that side goes to one of its destinations, as a promotion, an en passant capture or a
/// normal move, whichever it is; or its king castles with a rook, which it still may.
pub open spec fn pseudo_legal(p: PositionModel, m: Move) -> bool {
    let c = p.side_to_move;
    let from = m.from.idx as int;
    let to = m.to.idx as int;
    let pt = p.board[from].spec_piece_type();
    &&& m.on_board()
    &&& p.board[from].belongs_to(c)
    &&& if promotes(p, from) {
        &&& m.mtype is Promotion
        &&& destinations(p, from).contains(to)
        &&& m.promoted.spec_piece_type().is_promotion()
        &&& m.promoted.spec_color() == c
    } else {
        &&& m.promoted == Piece::Empty
        &&& if m.mtype is Castle {
            &&& pt is King
            &&& from == king_square(p.board, c)
            &&& p.castling_rights.spec_allows(c, castle_wing(m))
            &&& to == castling_rook(p.board, c, castle_wing(m))
        } else {
            &&& destinations(p, from).contains(to)
            &&& m.mtype == if pt is Pawn && p.ep_square.idx == to {
                MoveType::EnPassant
            } else {
                MoveType::Normal
            }
        }
    }
}

/// A piece has at most 256 moves.
pub proof fn lemma_num_moves(p: PositionModel, from: int)
    ensures
        num_moves(p, from) <= 256,
{
    lemma_count_below_bounds(destinations(p, from), 0, 64);
}

/// A move is the move of its number.
pub proof fn law_move_number(p: PositionModel, m: Move)
    requires
        pseudo_legal(p, m),
    ensures
        number_of(p, m) < num_moves(p, m.from.idx as int),
        move_of(p, m.from.idx as int, number_of(p, m) as int) == Some(m),
{
    let from = m.from.idx as int;
    let to = m.to.idx as int;
    let d = destinations(p, from);
    if !(m.mtype is Castle) {
        lemma_nth_of_count(d, to);
    }
    if promotes(p, from) {
        let k = number_of(p, m) as int;
        let q = m.promoted.spec_piece_type().spec_promotion_index() as int;
        assert(k / 4 == count_below(d, to) && k % 4 == q);
        assert(PieceType::spec_promotion(q) == m.promoted.spec_piece_type());
        assert(Piece::spec_new(m.promoted.spec_piece_type(), m.promoted.spec_color())
            == m.promoted);
    }
}

fn pawn_goes_exec(pos: &Position, from: u8, to: u8) -> (r: bool)
    requires
        from < 64,
        to < 64,
    ensures
        r == pawn_goes(pos@, from as int, to as int),
{
    let c = pos.side_to_move;
    let target = pos.board[to as usize];
    if pawn_attacks_exec(c, from, to) && ((target != Piece::Empty && target.color()
        == c.opposite()) || pos.ep_square.idx == to) {
        return true;
    }
    if target != Piece::Empty {
        return false;
    }
    match c {
        Color::White => {
            to == from + 8 || (to == from + 16 && from / 8 == 1 && pos.board[(from + 8) as usize]
                == Piece::Empty)
        },
        Color::Black => {
            to + 8 == from || (to + 16 == from && from / 8 == 6 && pos.board[(from - 8) as usize]
                == Piece::Empty)
        },
    }
}

/// The squares to which the piece on `from` may go.
pub fn destinations_exec(pos: &Position, from: u8) -> (r: Bitboard)
    requires
        from < 64,
    ensures
        r@ == destinations(pos@, from as int),
{
    let pt = pos.board[from as usize].piece_type();
    let mut r = Bitboard::empty();
    let mut to: u8 = 0;
    while to < 64
        invariant
            to <= 64,
            from < 64,
            pt == pos@.board[from as int].spec_piece_type(),
            r@ =~= destinations(pos@, from as int).intersect(Set::new(|j: int| j < to)),
        decreases 64 - to,
    {
        let ok: bool = if pt == PieceType::Pawn {
            pawn_goes_exec(pos, from, to)
        } else {
            let target = pos.board[to as usize];
            (target == Piece::Empty || target.color() != pos.side_to_move) && reaches_exec(
                &pos.board,
                pt,
                from,
                to,
            )
        };
        assert(ok == goes(pos@, from as int, to as int));
        if ok {
            r = r.with(to);
        }
        to = to + 1;
    }
    assert(r@ =~= destinations(pos@, from as int));
    r
}

fn promotes_exec(pos: &Position, from: u8) -> (r: bool)
    requires
        from < 64,
    ensures
        r == promotes(pos@, from as int),
{
    pos.board[from as usize].piece_type() == PieceType::Pawn && from / 8 == (
    match pos.side_to_move {
        Color::White => 6u8,
        Color::Black => 1u8,
    })
}

fn num_moves_exec(pos: &Position, from: u8, d: Bitboard) -> (r: u16)
    requires
        from < 64,
        d@ == destinations(pos@, from as int),
    ensures
        r == num_moves(pos@, from as int),
        r <= 256,
{
    let n: u16 = d.count() as u16;
    if promotes_exec(pos, from) {
        4 * n
    } else if pos.board[from as usize].piece_type() == PieceType::King {
        n + pos.castling_rights.count(pos.side_to_move) as u16
    } else {
        n
    }
}

/// Whether `mv` is a move of the side to move, apart from whether it leaves its king attacked.
pub fn is_pseudo_legal(pos: &Position, mv: Move) -> (r: bool)
    ensures
        r == pseudo_legal(pos@, mv),
{
    if !mv.from.on_board() || !mv.to.on_board() {
        return false;
    }
    let c = pos.side_to_move;
    let from: u8 = mv.from.idx;
    let piece = pos.board[from as usize];
    if piece == Piece::Empty || piece.color() != c {
        return false;
    }
    let d = destinations_exec(pos, from);
    if promotes_exec(pos, from) {
        let pt = mv.promoted.piece_type();
        return mv.mtype == MoveType::Promotion && d.has(mv.to.idx) && (pt == PieceType::Knight || pt
            == PieceType::Bishop || pt == PieceType::Rook || pt == PieceType::Queen)
            && mv.promoted.color() == c;
    }
    if mv.promoted != Piece::Empty {
        return false;
    }
    let pt = piece.piece_type();
    if mv.mtype == MoveType::Castle {
        let t = if mv.to.idx < from {
            CastleType::QueenSide
        } else {
            CastleType::KingSide
        };
        pt == PieceType::King && from == pos.king_sq(c).index() && pos.castling_rights.allows(c, t)
            && mv.to.idx == pos.castling_rook_sq(c, t).index()
    } else {
        d.has(mv.to.idx) && mv.mtype == (if pt == PieceType::Pawn && pos.ep_square.idx
            == mv.to.idx {
            MoveType::EnPassant
        } else {
            MoveType::Normal
        })
    }
}

/// The number of the move `mv` among the moves of its piece, and how many those are.
pub fn number_move(pos: &Position, mv: Move) -> (r: (u8, u16))
    requires
        pseudo_legal(pos@, mv),
    ensures
        r.0 == number_of(pos@, mv),
        r.1 == num_moves(pos@, mv.from.idx as int),
        r.0 < r.1,
        r.1 <= 256,
{
    let from: u8 = mv.from.idx;
    let d = destinations_exec(pos, from);
    let n: u16 = num_moves_exec(pos, from, d);
    proof {
        law_move_number(pos@, mv);
    }
    let k: u8 = if promotes_exec(pos, from) {
        let below: u16 = d.count_below(mv.to.idx) as u16;
        (4 * below + mv.promoted.piece_type().promotion_index() as u16) as u8
    } else if mv.mtype == MoveType::Castle {
        if mv.to.idx > mv.from.idx && pos.castling_rights.allows(
            pos.side_to_move,
            CastleType::QueenSide,
        ) {
            d.count() + 1
        } else {
            d.count()
        }
    } else {
        d.count_below(mv.to.idx)
    };
    (k, n)
}

/// How many moves the piece on `from` has.
pub fn count_moves(pos: &Position, from: u8) -> (r: u16)
    requires
        from < 64,
    ensures
        r == num_moves(pos@, from as int),
        r <= 256,
{
    num_moves_exec(pos, from, destinations_exec(pos, from))
}

/// The move number `k` of the piece of the side to move on `from`.
pub fn move_of_number(pos: &Position, from: u8, k: u8) -> (r: Option<Move>)
    requires
        from < 64,
    ensures
        r == move_of(pos@, from as int, k as int),
{
    let start = Square::new(from);
    let c = pos.side_to_move;
    let d = destinations_exec(pos, from);
    if k as u16 >= num_moves_exec(pos, from, d) {
        return None;
    }
    if promotes_exec(pos, from) {
        let to = d.nth(k / 4);
        let promoted = Piece::new(PieceType::promotion(k % 4), c);
        return Some(Move::new(start, to, MoveType::Promotion, promoted));
    }
    let pt = pos.board[from as usize].piece_type();
    if pt == PieceType::King && k >= d.count() {
        let t = if k == d.count() && pos.castling_rights.allows(c, CastleType::QueenSide) {
            CastleType::QueenSide
        } else {
            CastleType::KingSide
        };
        let rook = pos.castling_rook_sq(c, t);
        return if rook.on_board() {
            Some(Move::new(start, rook, MoveType::Castle, Piece::Empty))
        } else {
            None
        };
    }
    let to = d.nth(k);
    let mtype = if pt == PieceType::Pawn && pos.ep_square.idx == to.idx {
        MoveType::EnPassant
    } else {
        MoveType::Normal
    };
    Some(Move::new(start, to, mtype, Piece::Empty))
}

} // verus!
