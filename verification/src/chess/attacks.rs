//! Which squares a piece attacks.
use vstd::prelude::*;

use crate::chess::color::Color;
use crate::chess::coords::{file_of, rank_of};
use crate::chess::piece::Piece;
use crate::chess::piecetype::PieceType;

verus! {

/// The sign of `x`.
pub open spec fn sign(x: int) -> int {
    if x > 0 {
        1
    } else if x < 0 {
        -1
    } else {
        0
    }
}

/// The absolute value of `x`.
pub open spec fn abs(x: int) -> int {
    if x < 0 {
        -x
    } else {
        x
    }
}

/// How many files lie from `a` to `b`, to the right if positive.
pub open spec fn files_apart(a: int, b: int) -> int {
    file_of(b) - file_of(a)
}

/// How many ranks lie from `a` to `b`, upwards if positive.
pub open spec fn ranks_apart(a: int, b: int) -> int {
    rank_of(b) - rank_of(a)
}

/// The direction in which pawns of side `c` advance.
pub open spec fn forward(c: Color) -> int {
    match c {
        Color::White => 1,
        Color::Black => -1,
    }
}

/// Whether a pawn of side `c` on `a` attacks `b`.
pub open spec fn pawn_attacks(c: Color, a: int, b: int) -> bool {
    abs(files_apart(a, b)) == 1 && ranks_apart(a, b) == forward(c)
}

/// Whether `b` is a knight's jump from `a`.
pub open spec fn knight_step(a: int, b: int) -> bool {
    ||| abs(files_apart(a, b)) == 1 && abs(ranks_apart(a, b)) == 2
    ||| abs(files_apart(a, b)) == 2 && abs(ranks_apart(a, b)) == 1
}

/// Whether `b` is next to `a`.
pub open spec fn king_step(a: int, b: int) -> bool {
    a != b && abs(files_apart(a, b)) <= 1 && abs(ranks_apart(a, b)) <= 1
}

/// Whether `a` and `b` are different squares of one diagonal.
pub open spec fn on_diagonal(a: int, b: int) -> bool {
    a != b && abs(files_apart(a, b)) == abs(ranks_apart(a, b))
}

/// Whether `a` and `b` are different squares of one file or rank.
pub open spec fn on_line(a: int, b: int) -> bool {
    a != b && (files_apart(a, b) == 0 || ranks_apart(a, b) == 0)
}

/// Whether `n` squares are empty, from file `f` and rank `r` on in steps of `df` and `dr`.
pub open spec fn empty_run(board: Seq<Piece>, f: int, r: int, df: int, dr: int, n: int) -> bool
    decreases n,
{
    n <= 0 || (board[8 * r + f] == Piece::Empty && empty_run(
        board,
        f + df,
        r + dr,
        df,
        dr,
        n - 1,
    ))
}

/// How many king steps lie between two squares of one line or diagonal.
pub open spec fn distance(a: int, b: int) -> int {
    if abs(files_apart(a, b)) >= abs(ranks_apart(a, b)) {
        abs(files_apart(a, b))
    } else {
        abs(ranks_apart(a, b))
    }
}

/// Whether the squares strictly between `a` and `b`, on one line or diagonal, are empty.
pub open spec fn empty_between(board: Seq<Piece>, a: int, b: int) -> bool {
    let df = sign(files_apart(a, b));
    let dr = sign(ranks_apart(a, b));
    empty_run(board, file_of(a) + df, rank_of(a) + dr, df, dr, distance(a, b) - 1)
}

/// Whether a piece of kind `pt`, other than a pawn, reaches `b` from `a` in one move.
pub open spec fn reaches(board: Seq<Piece>, pt: PieceType, a: int, b: int) -> bool {
    match pt {
        PieceType::Knight => knight_step(a, b),
        PieceType::King => king_step(a, b),
        PieceType::Bishop => on_diagonal(a, b) && empty_between(board, a, b),
        PieceType::Rook => on_line(a, b) && empty_between(board, a, b),
        PieceType::Queen => (on_diagonal(a, b) || on_line(a, b)) && empty_between(board, a, b),
        PieceType::Pawn => false,
        PieceType::Empty => false,
    }
}

/// Whether the piece on `a` attacks `b`.
pub open spec fn attacks(board: Seq<Piece>, a: int, b: int) -> bool {
    if board[a].spec_piece_type() is Pawn {
        pawn_attacks(board[a].spec_color(), a, b)
    } else {
        reaches(board, board[a].spec_piece_type(), a, b)
    }
}

/// Whether a piece of side `c` attacks `sq`.
pub open spec fn is_attacked(board: Seq<Piece>, sq: int, c: Color) -> bool {
    exists|a: int| 0 <= a < 64 && #[trigger] board[a].belongs_to(c) && attacks(board, a, sq)
}

fn abs_diff(x: i8, y: i8) -> (r: i8)
    requires
        0 <= x < 8,
        0 <= y < 8,
    ensures
        r == abs(y - x),
{
    if x <= y {
        y - x
    } else {
        x - y
    }
}

fn sign_diff(x: i8, y: i8) -> (r: i8)
    requires
        0 <= x < 8,
        0 <= y < 8,
    ensures
        r == sign(y - x),
{
    if x < y {
        1
    } else if x > y {
        -1
    } else {
        0
    }
}

fn empty_between_exec(board: &[Piece; 64], a: u8, b: u8) -> (r: bool)
    requires
        a < 64,
        b < 64,
        on_line(a as int, b as int) || on_diagonal(a as int, b as int),
    ensures
        r == empty_between(board@, a as int, b as int),
{
    let fa: i8 = (a % 8) as i8;
    let ra: i8 = (a / 8) as i8;
    let fb: i8 = (b % 8) as i8;
    let rb: i8 = (b / 8) as i8;
    let df: i8 = sign_diff(fa, fb);
    let dr: i8 = sign_diff(ra, rb);
    let nf: i8 = abs_diff(fa, fb);
    let nr: i8 = abs_diff(ra, rb);
    let mut n: i8 = if nf >= nr {
        nf - 1
    } else {
        nr - 1
    };
    let mut f: i8 = fa + df;
    let mut r: i8 = ra + dr;
    while n > 0
        invariant
            0 <= n <= 6,
            0 <= f < 8,
            0 <= r < 8,
            -1 <= df <= 1,
            -1 <= dr <= 1,
            0 <= fb < 8,
            0 <= rb < 8,
            df == 1 ==> fb == f + n,
            df == -1 ==> fb == f - n,
            dr == 1 ==> rb == r + n,
            dr == -1 ==> rb == r - n,
            empty_between(board@, a as int, b as int) == empty_run(
                board@,
                f as int,
                r as int,
                df as int,
                dr as int,
                n as int,
            ),
        decreases n,
    {
        let i: usize = (8 * r + f) as usize;
        if board[i] != Piece::Empty {
            return false;
        }
        f = f + df;
        r = r + dr;
        n = n - 1;
    }
    true
}

/// Whether a pawn of side `c` on `a` attacks `b`.
pub fn pawn_attacks_exec(c: Color, a: u8, b: u8) -> (r: bool)
    requires
        a < 64,
        b < 64,
    ensures
        r == pawn_attacks(c, a as int, b as int),
{
    let fa: i8 = (a % 8) as i8;
    let ra: i8 = (a / 8) as i8;
    let fb: i8 = (b % 8) as i8;
    let rb: i8 = (b / 8) as i8;
    let up: i8 = if c == Color::White {
        1
    } else {
        -1
    };
    abs_diff(fa, fb) == 1 && rb - ra == up
}

/// Whether a piece of kind `pt`, other than a pawn, reaches `b` from `a` in one move.
pub fn reaches_exec(board: &[Piece; 64], pt: PieceType, a: u8, b: u8) -> (r: bool)
    requires
        a < 64,
        b < 64,
    ensures
        r == reaches(board@, pt, a as int, b as int),
{
    let fa: i8 = (a % 8) as i8;
    let ra: i8 = (a / 8) as i8;
    let fb: i8 = (b % 8) as i8;
    let rb: i8 = (b / 8) as i8;
    let nf: i8 = abs_diff(fa, fb);
    let nr: i8 = abs_diff(ra, rb);
    match pt {
        PieceType::Knight => (nf == 1 && nr == 2) || (nf == 2 && nr == 1),
        PieceType::King => a != b && nf <= 1 && nr <= 1,
        PieceType::Bishop => a != b && nf == nr && empty_between_exec(board, a, b),
        PieceType::Rook => a != b && (nf == 0 || nr == 0) && empty_between_exec(board, a, b),
        PieceType::Queen => a != b && (nf == nr || nf == 0 || nr == 0) && empty_between_exec(
            board,
            a,
            b,
        ),
        PieceType::Pawn => false,
        PieceType::Empty => false,
    }
}

/// Whether the piece on `a` attacks `b`.
pub fn attacks_exec(board: &[Piece; 64], a: u8, b: u8) -> (r: bool)
    requires
        a < 64,
        b < 64,
    ensures
        r == attacks(board@, a as int, b as int),
{
    let piece = board[a as usize];
    if piece.piece_type() == PieceType::Pawn {
        pawn_attacks_exec(piece.color(), a, b)
    } else {
        reaches_exec(board, piece.piece_type(), a, b)
    }
}

/// Whether a piece of side `c` attacks `sq`.
pub fn is_attacked_exec(board: &[Piece; 64], sq: u8, c: Color) -> (r: bool)
    requires
        sq < 64,
    ensures
        r == is_attacked(board@, sq as int, c),
{
    let mut a: u8 = 0;
    while a < 64
        invariant
            a <= 64,
            sq < 64,
            forall|i: int|
                0 <= i < a ==> !(#[trigger] board@[i].belongs_to(c) && attacks(
                    board@,
                    i,
                    sq as int,
                )),
        decreases 64 - a,
    {
        let piece = board[a as usize];
        if piece != Piece::Empty && piece.color() == c && attacks_exec(board, a, sq) {
            assert(board@[a as int].belongs_to(c));
            return true;
        }
        a = a + 1;
    }
    false
}

} // verus!
