//! The rules of chess, square by square: what pieces attack, and what a move does to a position.
//!
//! The squares are written out here by their numbers: the file of a square is its number modulo 8,
//! its rank its number divided by 8, one rank up is 8 more and one file to the right 1 more.
use vstd::prelude::*;

use crate::chess::attacks::{
    abs, attacks, empty_between, empty_run, files_apart, is_attacked, ranks_apart, reaches, sign,
};
use crate::chess::castling_rights::CastleType;
use crate::chess::chess_move::Move;
use crate::chess::color::Color;
use crate::chess::piece::Piece;
use crate::chess::piecetype::PieceType;
use crate::chess::position::{
    after_ep_capture, castling_rook, empty_position, ep_capture_legal, ep_possible, king_safe,
    king_square, leftmost, lemma_first_from, rightmost, PositionModel,
};

verus! {

/// Whether `x` is a white piece.
pub open spec fn is_white(x: Piece) -> bool {
    ||| x is WhitePawn
    ||| x is WhiteKnight
    ||| x is WhiteBishop
    ||| x is WhiteRook
    ||| x is WhiteQueen
    ||| x is WhiteKing
}

/// Whether `x` is a black piece.
pub open spec fn is_black(x: Piece) -> bool {
    ||| x is BlackPawn
    ||| x is BlackKnight
    ||| x is BlackBishop
    ||| x is BlackRook
    ||| x is BlackQueen
    ||| x is BlackKing
}

/// Whether `x` is a piece of side `c`.
pub open spec fn is_of(x: Piece, c: Color) -> bool {
    match c {
        Color::White => is_white(x),
        Color::Black => is_black(x),
    }
}

/// The king of side `c`.
pub open spec fn king_of(c: Color) -> Piece {
    match c {
        Color::White => Piece::WhiteKing,
        Color::Black => Piece::BlackKing,
    }
}

/// The rook of side `c`.
pub open spec fn rook_of(c: Color) -> Piece {
    match c {
        Color::White => Piece::WhiteRook,
        Color::Black => Piece::BlackRook,
    }
}

/// The pawn of side `c`.
pub open spec fn pawn_of(c: Color) -> Piece {
    match c {
        Color::White => Piece::WhitePawn,
        Color::Black => Piece::BlackPawn,
    }
}

/// The other side than `c`.
pub open spec fn other(c: Color) -> Color {
    match c {
        Color::White => Color::Black,
        Color::Black => Color::White,
    }
}

/// The square in front of `a`, as a pawn of side `c` sees it.
pub open spec fn in_front(c: Color, a: int) -> int {
    match c {
        Color::White => a + 8,
        Color::Black => a - 8,
    }
}

/// The square `k` steps from `a`, each of `df` files and `dr` ranks.
pub open spec fn ray(a: int, df: int, dr: int, k: int) -> int {
    a + k * (8 * dr + df)
}

/// Whether a square `n` steps from `a`, each of `df` files and `dr` ranks, lies on the board, the
/// steps going straight or along a diagonal.
pub open spec fn on_ray(a: int, df: int, dr: int, n: int) -> bool {
    &&& 0 <= a < 64
    &&& -1 <= df <= 1
    &&& -1 <= dr <= 1
    &&& df != 0 || dr != 0
    &&& 1 <= n
    &&& 0 <= a % 8 + n * df < 8
    &&& 0 <= a / 8 + n * dr < 8
}

/// Whether the squares strictly between `a` and the one `n` steps from it are empty.
pub open spec fn clear(board: Seq<Piece>, a: int, df: int, dr: int, n: int) -> bool {
    forall|k: int| 0 < k < n ==> board[#[trigger] ray(a, df, dr, k)] is Empty
}

/// A run of empty squares is one of which every square is empty.
proof fn lemma_run(board: Seq<Piece>, f: int, r: int, df: int, dr: int, n: int)
    ensures
        empty_run(board, f, r, df, dr, n) == (forall|k: int|
            0 <= k < n ==> board[#[trigger] ray(8 * r + f, df, dr, k)] is Empty),
    decreases n,
{
    let a = 8 * r + f;
    let b = 8 * (r + dr) + (f + df);
    if n > 0 {
        lemma_run(board, f + df, r + dr, df, dr, n - 1);
        assert forall|k: int| #[trigger] ray(b, df, dr, k) == ray(a, df, dr, k + 1) by {
            assert((k + 1) * (8 * dr + df) == k * (8 * dr + df) + (8 * dr + df))
                by (nonlinear_arith);
        }
        assert(ray(a, df, dr, 0) == a);
        if empty_run(board, f, r, df, dr, n) {
            assert forall|k: int| 0 <= k < n implies board[#[trigger] ray(a, df, dr, k)] is Empty by {
                if k > 0 {
                    assert(ray(b, df, dr, k - 1) == ray(a, df, dr, k));
                }
            }
        } else if forall|k: int| 0 <= k < n ==> board[#[trigger] ray(a, df, dr, k)] is Empty {
            assert forall|k: int| 0 <= k < n - 1 implies board[#[trigger] ray(b, df, dr, k)]
                is Empty by {
                assert(ray(b, df, dr, k) == ray(a, df, dr, k + 1));
            }
        }
    }
}

/// Where a ray leads: so many files and ranks, in its direction.
pub proof fn lemma_ray_target(a: int, df: int, dr: int, n: int)
    requires
        on_ray(a, df, dr, n),
    ensures
        ({
            let b = ray(a, df, dr, n);
            &&& 0 <= b < 64
            &&& b != a
            &&& files_apart(a, b) == n * df
            &&& ranks_apart(a, b) == n * dr
            &&& n * df == (if df == 0 { 0 } else if df == 1 { n } else { -n })
            &&& n * dr == (if dr == 0 { 0 } else if dr == 1 { n } else { -n })
        }),
{
    let b = ray(a, df, dr, n);
    assert(n * (8 * dr + df) == 8 * (n * dr) + n * df) by (nonlinear_arith);
    assert(n * df == (if df == 0 { 0 } else if df == 1 { n } else { -n })) by (nonlinear_arith)
        requires
            -1 <= df <= 1,
    ;
    assert(n * dr == (if dr == 0 { 0 } else if dr == 1 { n } else { -n })) by (nonlinear_arith)
        requires
            -1 <= dr <= 1,
    ;
    let f = a % 8 + n * df;
    let r = a / 8 + n * dr;
    assert(b == 8 * r + f);
    assert(b % 8 == f && b / 8 == r);
}

/// The squares between two squares of a ray are empty exactly if each of them is.
proof fn lemma_between(board: Seq<Piece>, a: int, df: int, dr: int, n: int)
    requires
        on_ray(a, df, dr, n),
    ensures
        empty_between(board, a, ray(a, df, dr, n)) == clear(board, a, df, dr, n),
{
    let b = ray(a, df, dr, n);
    lemma_ray_target(a, df, dr, n);
    assert(sign(files_apart(a, b)) == df);
    assert(sign(ranks_apart(a, b)) == dr);
    let first = 8 * (a / 8 + dr) + (a % 8 + df);
    lemma_run(board, a % 8 + df, a / 8 + dr, df, dr, n - 1);
    assert forall|k: int| #[trigger] ray(first, df, dr, k) == ray(a, df, dr, k + 1) by {
        assert((k + 1) * (8 * dr + df) == k * (8 * dr + df) + (8 * dr + df)) by (nonlinear_arith);
    }
    if clear(board, a, df, dr, n) {
        assert forall|k: int| 0 <= k < n - 1 implies board[#[trigger] ray(first, df, dr, k)]
            is Empty by {
            assert(ray(first, df, dr, k) == ray(a, df, dr, k + 1));
        }
    }
    if forall|k: int| 0 <= k < n - 1 ==> board[#[trigger] ray(first, df, dr, k)] is Empty {
        assert forall|k: int| 0 < k < n implies board[#[trigger] ray(a, df, dr, k)] is Empty by {
            assert(ray(first, df, dr, k - 1) == ray(a, df, dr, k));
        }
    }
}

/// A rook, a bishop and a queen reach a square of a ray exactly if the ray is one of theirs and the
/// squares on the way to it are empty: a rook goes straight, a bishop along a diagonal, a queen both
/// ways.
pub proof fn law_sliding(board: Seq<Piece>, a: int, df: int, dr: int, n: int)
    requires
        on_ray(a, df, dr, n),
    ensures
        ({
            let b = ray(a, df, dr, n);
            let free = clear(board, a, df, dr, n);
            &&& reaches(board, PieceType::Rook, a, b) == ((df == 0 || dr == 0) && free)
            &&& reaches(board, PieceType::Bishop, a, b) == (df != 0 && dr != 0 && free)
            &&& reaches(board, PieceType::Queen, a, b) == free
        }),
{
    lemma_ray_target(a, df, dr, n);
    lemma_between(board, a, df, dr, n);
}

/// A square that is not on a ray from `a`, on one file, rank or diagonal with it, is reached by no
/// rook, bishop or queen.
pub proof fn law_not_sliding(board: Seq<Piece>, a: int, b: int)
    requires
        0 <= a < 64,
        0 <= b < 64,
        a == b || (a % 8 != b % 8 && a / 8 != b / 8 && a % 8 + a / 8 != b % 8 + b / 8 && a % 8 - a
            / 8 != b % 8 - b / 8),
    ensures
        !reaches(board, PieceType::Rook, a, b),
        !reaches(board, PieceType::Bishop, a, b),
        !reaches(board, PieceType::Queen, a, b),
{
}

/// A knight jumps two squares in one direction and one in the other, whatever stands between; a king
/// goes one square in any direction.
pub proof fn law_stepping(board: Seq<Piece>, a: int, b: int)
    requires
        0 <= a < 64,
        0 <= b < 64,
    ensures
        ({
            let f = b % 8 - a % 8;
            let r = b / 8 - a / 8;
            &&& reaches(board, PieceType::Knight, a, b) == (f * f + r * r == 5)
            &&& reaches(board, PieceType::King, a, b) == (a != b && -1 <= f <= 1 && -1 <= r <= 1)
        }),
{
    let f = b % 8 - a % 8;
    let r = b / 8 - a / 8;
    let g = abs(f);
    let q = abs(r);
    assert(f * f == g * g && r * r == q * q) by (nonlinear_arith)
        requires
            g == f || g == -f,
            q == r || q == -r,
    ;
    assert(g * g + q * q == 5 <==> ((g == 1 && q == 2) || (g == 2 && q == 1)))
        by (nonlinear_arith)
        requires
            0 <= g <= 7,
            0 <= q <= 7,
    ;
}

/// A white pawn attacks the two squares diagonally above it, a black pawn those below it; other
/// pieces attack what they reach, and an empty square attacks nothing.
pub proof fn law_attacks(board: Seq<Piece>, a: int, b: int)
    requires
        0 <= a < 64,
        0 <= b < 64,
    ensures
        attacks(board, a, b) == match board[a] {
            Piece::WhitePawn => (b == a + 7 && a % 8 != 0) || (b == a + 9 && a % 8 != 7),
            Piece::BlackPawn => (b == a - 9 && a % 8 != 0) || (b == a - 7 && a % 8 != 7),
            Piece::WhiteKnight | Piece::BlackKnight => reaches(board, PieceType::Knight, a, b),
            Piece::WhiteBishop | Piece::BlackBishop => reaches(board, PieceType::Bishop, a, b),
            Piece::WhiteRook | Piece::BlackRook => reaches(board, PieceType::Rook, a, b),
            Piece::WhiteQueen | Piece::BlackQueen => reaches(board, PieceType::Queen, a, b),
            Piece::WhiteKing | Piece::BlackKing => reaches(board, PieceType::King, a, b),
            Piece::Empty => false,
        },
{
}

/// A square is attacked by a side exactly if a piece of that side attacks it.
pub proof fn law_is_attacked(board: Seq<Piece>, sq: int, c: Color)
    ensures
        is_attacked(board, sq, c) == (exists|a: int|
            0 <= a < 64 && is_of(#[trigger] board[a], c) && attacks(board, a, sq)),
{
    if is_attacked(board, sq, c) {
        let a = choose|a: int|
            0 <= a < 64 && #[trigger] board[a].belongs_to(c) && attacks(board, a, sq);
        assert(is_of(board[a], c));
    }
    if exists|a: int| 0 <= a < 64 && is_of(#[trigger] board[a], c) && attacks(board, a, sq) {
        let a = choose|a: int|
            0 <= a < 64 && is_of(#[trigger] board[a], c) && attacks(board, a, sq);
        assert(board[a].belongs_to(c));
    }
}

/// Each move passes the turn. The number of the move grows after black has moved. The rule50 counter
/// starts again when a pawn moves or a piece is captured, and grows otherwise. Both stop at their
/// largest value.
pub proof fn law_turn_and_clocks(p: PositionModel, m: Move)
    ensures
        ({
            let q = p.after_move(m);
            let moves = m.from.idx < 64 && m.to.idx < 64 && !(m.mtype is Castle);
            let mover = p.board[m.from.idx as int];
            let pawn = mover is WhitePawn || mover is BlackPawn;
            let capture = !(p.board[m.to.idx as int] is Empty);
            &&& p.side_to_move is White ==> q.side_to_move is Black && q.fullmove == p.fullmove
            &&& p.side_to_move is Black ==> q.side_to_move is White && (q.fullmove == p.fullmove
                + 1 || (p.fullmove == 65535 && q.fullmove == 65535))
            &&& moves && (pawn || capture) ==> q.rule50_counter == 0
            &&& !(moves && (pawn || capture)) ==> q.rule50_counter == p.rule50_counter + 1 || (
            p.rule50_counter == 65535 && q.rule50_counter == 65535)
        }),
{
}

/// A move that is neither castling nor an en passant capture leaves its square, puts the piece, or
/// the one that a pawn becomes, on the other square, and changes nothing else.
pub proof fn law_plain_move(p: PositionModel, m: Move, sq: int)
    requires
        p.board.len() == 64,
        m.from.idx < 64,
        m.to.idx < 64,
        m.from != m.to,
        m.mtype is Normal || m.mtype is Promotion,
        0 <= sq < 64,
    ensures
        ({
            let q = p.after_move(m);
            &&& q.board.len() == 64
            &&& sq == m.from.idx ==> q.board[sq] is Empty
            &&& sq == m.to.idx && m.mtype is Normal ==> q.board[sq] == p.board[m.from.idx as int]
            &&& sq == m.to.idx && m.mtype is Promotion ==> q.board[sq] == m.promoted
            &&& sq != m.from.idx && sq != m.to.idx ==> q.board[sq] == p.board[sq]
        }),
{
}

/// An en passant capture of a pawn takes the pawn beside it, which stands one rank below the square
/// of a white capture and one above that of a black one. Nothing but the three squares changes.
pub proof fn law_en_passant(p: PositionModel, m: Move, white: bool, sq: int)
    requires
        p.board.len() == 64,
        m.from.idx < 64,
        m.to.idx < 64,
        m.mtype is EnPassant,
        ({
            let f = m.from.idx as int;
            let t = m.to.idx as int;
            if white {
                (t == f + 7 && f % 8 != 0) || (t == f + 9 && f % 8 != 7)
            } else {
                (t == f - 9 && f % 8 != 0) || (t == f - 7 && f % 8 != 7)
            }
        }),
        0 <= sq < 64,
    ensures
        ({
            let q = p.after_move(m);
            let taken = if white {
                m.to.idx - 8
            } else {
                m.to.idx + 8
            };
            &&& q.board.len() == 64
            &&& 0 <= taken < 64
            &&& sq == taken ==> q.board[sq] is Empty
            &&& sq == m.from.idx ==> q.board[sq] is Empty
            &&& sq == m.to.idx ==> q.board[sq] == p.board[m.from.idx as int]
            &&& sq != m.from.idx && sq != m.to.idx && sq != taken ==> q.board[sq] == p.board[sq]
        }),
{
}

/// Castling with a rook to the left puts the king on the c-file and the rook on the d-file, with one
/// to the right on the g-file and the f-file, both on their rank. The squares that they leave are
/// empty unless one of them stands there, and no other square changes.
pub proof fn law_castling(p: PositionModel, m: Move, sq: int)
    requires
        p.board.len() == 64,
        m.from.idx < 64,
        m.to.idx < 64,
        m.mtype is Castle,
        m.from.idx / 8 == m.to.idx / 8,
        m.from != m.to,
        0 <= sq < 64,
    ensures
        ({
            let q = p.after_move(m);
            let king = p.board[m.from.idx as int];
            let rook = p.board[m.to.idx as int];
            let left = m.to.idx < m.from.idx;
            let on_rank = sq / 8 == m.from.idx as int / 8;
            let for_king = on_rank && sq % 8 == (if left { 2int } else { 6 });
            let for_rook = on_rank && sq % 8 == (if left { 3int } else { 5 });
            &&& q.board.len() == 64
            &&& for_king ==> q.board[sq] == king
            &&& for_rook ==> q.board[sq] == rook
            &&& !for_king && !for_rook && (sq == m.from.idx || sq == m.to.idx) ==> q.board[sq]
                is Empty
            &&& !for_king && !for_rook && sq != m.from.idx && sq != m.to.idx ==> q.board[sq]
                == p.board[sq]
        }),
{
}

/// The empty position has no piece, no castling right and no en passant square, and white is to make
/// the first move.
pub proof fn law_empty_position(sq: int)
    requires
        0 <= sq < 64,
    ensures
        ({
            let p = empty_position();
            &&& p.board.len() == 64
            &&& p.board[sq] is Empty
            &&& p.side_to_move is White
            &&& p.ep_square.idx == 64
            &&& !p.castling_rights.white_king_side && !p.castling_rights.white_queen_side
            &&& !p.castling_rights.black_king_side && !p.castling_rights.black_queen_side
            &&& p.rule50_counter == 0
            &&& p.fullmove == 1
        }),
{
}

/// A move with a square off the board changes neither the board nor the castling rights, and leaves
/// no en passant square.
pub proof fn law_no_move(p: PositionModel, m: Move)
    requires
        m.from.idx >= 64 || m.to.idx >= 64,
    ensures
        p.after_move(m).board == p.board,
        p.after_move(m).castling_rights == p.castling_rights,
        p.after_move(m).ep_square.idx == 64,
{
}

/// Whether `k` is the only square that holds the piece `x`.
pub open spec fn only_at(board: Seq<Piece>, x: Piece, k: int) -> bool {
    &&& 0 <= k < 64
    &&& board[k] == x
    &&& forall|sq: int| 0 <= sq < 64 && sq != k ==> #[trigger] board[sq] != x
}

/// Whether no square but `k` holds the piece `x`.
pub open spec fn at_most_at(board: Seq<Piece>, x: Piece, k: int) -> bool {
    forall|sq: int| 0 <= sq < 64 && sq != k ==> #[trigger] board[sq] != x
}

/// The king is found where it is.
pub proof fn lemma_king_at(board: Seq<Piece>, c: Color, k: int)
    requires
        only_at(board, king_of(c), k),
    ensures
        king_square(board, c) == k,
{
    lemma_first_from(board, king_of(c), 0);
}

/// Where `leftmost` finds a piece.
proof fn lemma_leftmost(board: Seq<Piece>, x: Piece, r: int, f: int)
    requires
        0 <= r < 8,
        0 <= f <= 8,
    ensures
        ({
            let s = leftmost(board, x, r, f);
            &&& s == 64 || (8 * r + f <= s < 8 * r + 8 && board[s] == x)
            &&& forall|q: int| 8 * r + f <= q < 8 * r + 8 && q < s ==> #[trigger] board[q] != x
        }),
    decreases 8 - f,
{
    if f < 8 && board[8 * r + f] != x {
        lemma_leftmost(board, x, r, f + 1);
    }
}

/// Where `rightmost` finds a piece.
proof fn lemma_rightmost(board: Seq<Piece>, x: Piece, r: int, f: int)
    requires
        0 <= r < 8,
        -1 <= f < 8,
    ensures
        ({
            let s = rightmost(board, x, r, f);
            &&& s == 64 || (8 * r <= s <= 8 * r + f && board[s] == x)
            &&& forall|q: int|
                8 * r <= q <= 8 * r + f && (s == 64 || q > s) ==> #[trigger] board[q] != x
        }),
    decreases f + 1,
{
    if f >= 0 && board[8 * r + f] != x {
        lemma_rightmost(board, x, r, f - 1);
    }
}

/// Whether `s` holds the rook `x` with which a king on `k` castles: on the rank of the king, to its
/// left if `left` holds and to its right otherwise, and no such rook stands further out.
pub open spec fn is_outer_rook(board: Seq<Piece>, x: Piece, k: int, left: bool, s: int) -> bool {
    &&& 0 <= s < 64
    &&& board[s] == x
    &&& s / 8 == k / 8
    &&& if left {
        s < k && forall|q: int| 0 <= q < s && q / 8 == k / 8 ==> #[trigger] board[q] != x
    } else {
        s > k && forall|q: int| s < q < 64 && q / 8 == k / 8 ==> #[trigger] board[q] != x
    }
}

/// The castling rook of a side with one king is the outermost of its rooks on that wing of the rank
/// of its king. `q` is any square.
pub proof fn law_castling_rook(board: Seq<Piece>, c: Color, k: int, left: bool, q: int)
    requires
        only_at(board, king_of(c), k),
    ensures
        ({
            let t = if left {
                CastleType::QueenSide
            } else {
                CastleType::KingSide
            };
            let s = castling_rook(board, c, t);
            &&& s == 64 || is_outer_rook(board, rook_of(c), k, left, s)
            &&& is_outer_rook(board, rook_of(c), k, left, q) ==> q == s
        }),
{
    let x = rook_of(c);
    let t = if left {
        CastleType::QueenSide
    } else {
        CastleType::KingSide
    };
    let s = castling_rook(board, c, t);
    let r = k / 8;
    lemma_king_at(board, c, k);
    lemma_leftmost(board, x, r, 0);
    lemma_rightmost(board, x, r, 7);
    if s != 64 {
        if left {
            assert forall|j: int| 0 <= j < s && j / 8 == k / 8 implies #[trigger] board[j] != x by {
                assert(8 * r <= j);
            }
        } else {
            assert forall|j: int| s < j < 64 && j / 8 == k / 8 implies #[trigger] board[j] != x by {
                assert(j <= 8 * r + 7);
            }
        }
    }
    if is_outer_rook(board, x, k, left, q) {
        assert(8 * r <= q <= 8 * r + 7);
        if left {
            let l = leftmost(board, x, r, 0);
            assert(l <= q);
            assert(l / 8 == k / 8);
            assert(board[l] == x);
        } else {
            let l = rightmost(board, x, r, 7);
            assert(l != 64 && l >= q);
            assert(l / 8 == k / 8);
            assert(board[l] == x);
        }
    }
}

/// A right to castle is kept exactly while neither the king nor the rook for that wing moves, and the
/// rook is not captured. `k` is the square of the king, the only one of its side, and `rook` the
/// square of that rook, or 64 if there is none.
pub proof fn law_rights(p: PositionModel, m: Move, c: Color, k: int, rook: int, left: bool)
    requires
        m.from.idx < 64,
        m.to.idx < 64,
        only_at(p.board, king_of(c), k),
        ({
            ||| is_outer_rook(p.board, rook_of(c), k, left, rook)
            ||| rook == 64 && forall|s: int|
                !#[trigger] is_outer_rook(p.board, rook_of(c), k, left, s)
        }),
    ensures
        ({
            let before = p.castling_rights;
            let after = p.after_move(m).castling_rights;
            let kept = m.from.idx != k && m.from.idx != rook && m.to.idx != rook;
            let white = c is White;
            &&& white && left ==> after.white_queen_side == (before.white_queen_side && kept)
            &&& white && !left ==> after.white_king_side == (before.white_king_side && kept)
            &&& !white && left ==> after.black_queen_side == (before.black_queen_side && kept)
            &&& !white && !left ==> after.black_king_side == (before.black_king_side && kept)
        }),
{
    lemma_king_at(p.board, c, k);
    law_castling_rook(p.board, c, k, left, rook);
}

/// A side without a king keeps its castling rights, since there is neither a king nor a rook of its
/// castlings that could move.
pub proof fn law_rights_without_king(p: PositionModel, m: Move)
    ensures
        ({
            let before = p.castling_rights;
            let after = p.after_move(m).castling_rights;
            &&& (forall|sq: int| 0 <= sq < 64 ==> #[trigger] p.board[sq] != Piece::WhiteKing)
                ==> after.white_king_side == before.white_king_side && after.white_queen_side
                == before.white_queen_side
            &&& (forall|sq: int| 0 <= sq < 64 ==> #[trigger] p.board[sq] != Piece::BlackKing)
                ==> after.black_king_side == before.black_king_side && after.black_queen_side
                == before.black_queen_side
        }),
{
    lemma_first_from(p.board, Piece::WhiteKing, 0);
    lemma_first_from(p.board, Piece::BlackKing, 0);
}

/// Whether no piece of the other side attacks a king of side `c`.
pub open spec fn not_in_check(board: Seq<Piece>, c: Color) -> bool {
    forall|k: int, a: int|
        0 <= k < 64 && 0 <= a < 64 && board[k] == king_of(c) && is_of(board[a], other(c))
            ==> !#[trigger] attacks(board, a, k)
}

/// With one king at most, being safe is not to be in check.
proof fn lemma_safe(board: Seq<Piece>, c: Color, k: int)
    requires
        at_most_at(board, king_of(c), k),
    ensures
        king_safe(board, c) == not_in_check(board, c),
{
    lemma_first_from(board, king_of(c), 0);
    law_is_attacked(board, k, other(c));
    if !king_safe(board, c) {
        let a = choose|a: int|
            0 <= a < 64 && is_of(#[trigger] board[a], other(c)) && attacks(board, a, k);
        assert(attacks(board, a, k));
    }
    if !not_in_check(board, c) {
        let (j, a) = choose|j: int, a: int|
            0 <= j < 64 && 0 <= a < 64 && board[j] == king_of(c) && is_of(board[a], other(c))
                && #[trigger] attacks(board, a, j);
        assert(j == k);
        assert(is_of(board[a], other(c)));
    }
}

/// Whether the pawn on `a` may capture a pawn of side `c` that has just gone over `over` to `to`: it
/// is a pawn of the other side, stands beside that pawn, and its king is not in check once it has
/// gone to `over` and the captured pawn is off the board.
pub open spec fn may_take(board: Seq<Piece>, c: Color, a: int, over: int, to: int) -> bool {
    let pawn = pawn_of(other(c));
    &&& (a == to - 1 && to % 8 != 0) || (a == to + 1 && to % 8 != 7)
    &&& board[a] == pawn
    &&& not_in_check(
        board.update(a, Piece::Empty).update(to, Piece::Empty).update(over, pawn),
        other(c),
    )
}

/// A pawn may be captured en passant if some pawn may take it. `k` is the square of the king of the
/// side that may capture, if it has one, and its only one.
pub proof fn lemma_may_take(b: Seq<Piece>, c: Color, over: int, to: int, k: int)
    requires
        b.len() == 64,
        0 <= over < 64,
        0 <= to < 64,
        to == in_front(c, over),
        b[over] is Empty,
        b[to] == pawn_of(c),
        at_most_at(b, king_of(other(c)), k),
    ensures
        ep_possible(b, over, to, other(c)) == exists|a: int| #[trigger]
            may_take(b, c, a, over, to),
{
    let e = other(c);
    assert forall|a: int| 0 <= a < 64 implies #[trigger] ep_capture_legal(b, a, over, to, e)
        == may_take(b, c, a, over, to) by {
        let next = after_ep_capture(b, a, over, to);
        if b[a] == pawn_of(e) {
            assert(next =~= b.update(a, Piece::Empty).update(to, Piece::Empty).update(
                over,
                pawn_of(e),
            ));
            assert(at_most_at(next, king_of(e), k)) by {
                assert forall|sq: int| 0 <= sq < 64 && sq != k implies #[trigger] next[sq]
                    != king_of(e) by {
                    assert(b[sq] != king_of(e));
                }
            }
            lemma_safe(next, e, k);
        }
    }
    if exists|a: int| #[trigger] may_take(b, c, a, over, to) {
        let a = choose|a: int| #[trigger] may_take(b, c, a, over, to);
        assert(ep_capture_legal(b, a, over, to, e));
    }
    if ep_possible(b, over, to, e) {
        let a = choose|a: int| 0 <= a < 64 && #[trigger] ep_capture_legal(b, a, over, to, e);
        assert(may_take(b, c, a, over, to));
    }
}

/// After a pawn has gone two squares from its first rank, the en passant square is the one that it
/// has gone over if an enemy pawn may capture it there, and no square otherwise. `k` is the square
/// of the king of the side that may capture, if it has one, and its only one.
pub proof fn law_ep_square(p: PositionModel, m: Move, k: int)
    requires
        p.board.len() == 64,
        m.mtype is Normal,
        match p.side_to_move {
            Color::White => 8 <= m.from.idx < 16 && m.to.idx == m.from.idx + 16,
            Color::Black => 48 <= m.from.idx < 56 && m.to.idx == m.from.idx - 16,
        },
        p.board[m.from.idx as int] == pawn_of(p.side_to_move),
        p.board[in_front(p.side_to_move, m.from.idx as int)] is Empty,
        p.board[m.to.idx as int] is Empty,
        at_most_at(p.board, king_of(other(p.side_to_move)), k),
    ensures
        ({
            let c = p.side_to_move;
            let q = p.after_move(m);
            let to = m.to.idx as int;
            let over = in_front(c, m.from.idx as int);
            &&& (exists|a: int| #[trigger] may_take(q.board, c, a, over, to)) ==> q.ep_square.idx
                == over
            &&& !(exists|a: int| #[trigger] may_take(q.board, c, a, over, to)) ==> q.ep_square.idx
                == 64
        }),
{
    let c = p.side_to_move;
    let b = p.after_move(m).board;
    let from = m.from.idx as int;
    let to = m.to.idx as int;
    let over = in_front(c, from);
    let e = other(c);
    assert(b == p.board.update(from, Piece::Empty).update(to, p.board[from]));
    assert((m.from.idx + m.to.idx) / 2 == over);
    assert(at_most_at(b, king_of(e), k)) by {
        assert forall|sq: int| 0 <= sq < 64 && sq != k implies #[trigger] b[sq] != king_of(e) by {
            assert(p.board[sq] != king_of(e));
        }
    }
    lemma_may_take(b, c, over, to, k);
}

/// Only a pawn that goes two squares leaves an en passant square.
pub proof fn law_no_ep_square(p: PositionModel, m: Move)
    requires
        ({
            let mover = p.board[m.from.idx as int];
            ||| !(m.mtype is Normal)
            ||| !(mover is WhitePawn || mover is BlackPawn)
            ||| m.to.idx - m.from.idx != 16 && m.from.idx - m.to.idx != 16
        }),
    ensures
        p.after_move(m).ep_square.idx == 64,
{
}

} // verus!
