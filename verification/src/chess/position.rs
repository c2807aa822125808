//! Positions, and what a move does to them.
use vstd::prelude::*;

use crate::chess::attacks::{abs, is_attacked, is_attacked_exec, pawn_attacks, pawn_attacks_exec};
use crate::chess::bitboard::Bitboard;
use crate::chess::castling_rights::{CastleType, CastlingRights};
use crate::chess::chess_move::{Move, MoveType};
use crate::chess::color::Color;
use crate::chess::coords::{file_of, rank_of, Square};
use crate::chess::piece::Piece;
use crate::chess::piecetype::PieceType;

verus! {

/// A position: the board, the side to move, and what is left of the game's past.
#[derive(Debug, Clone, Copy, Eq)]
pub struct Position {
    pub board: [Piece; 64],
    pub side_to_move: Color,
    pub ep_square: Square,
    pub castling_rights: CastlingRights,
    pub rule50_counter: u16,
    pub fullmove: u16,
}

/// What a position means: 64 pieces by square, and the other parts of the position.
#[verifier::ext_equal]
pub struct PositionModel {
    pub board: Seq<Piece>,
    pub side_to_move: Color,
    pub ep_square: Square,
    pub castling_rights: CastlingRights,
    pub rule50_counter: u16,
    pub fullmove: u16,
}

impl View for Position {
    type V = PositionModel;

    open spec fn view(&self) -> PositionModel {
        PositionModel {
            board: self.board@,
            side_to_move: self.side_to_move,
            ep_square: self.ep_square,
            castling_rights: self.castling_rights,
            rule50_counter: self.rule50_counter,
            fullmove: self.fullmove,
        }
    }
}

/// The squares that hold a piece.
pub open spec fn occupied(board: Seq<Piece>) -> Set<int> {
    Set::new(|i: int| 0 <= i < 64 && board[i] != Piece::Empty)
}

/// The squares that hold a piece of side `c`.
pub open spec fn pieces_of(board: Seq<Piece>, c: Color) -> Set<int> {
    Set::new(|i: int| 0 <= i < 64 && board[i].belongs_to(c))
}

/// The first square from `i` on that holds the piece `x`; 64 if there is none.
pub open spec fn first_from(board: Seq<Piece>, x: Piece, i: int) -> int
    decreases 64 - i,
{
    if i >= 64 {
        64
    } else if board[i] == x {
        i
    } else {
        first_from(board, x, i + 1)
    }
}

/// The square of the king of side `c`, the lowest if there are several; 64 if there is none.
pub open spec fn king_square(board: Seq<Piece>, c: Color) -> int {
    first_from(board, Piece::spec_new(PieceType::King, c), 0)
}

/// The leftmost square from file `f` on of rank `r` that holds the piece `x`; 64 if there is none.
pub open spec fn leftmost(board: Seq<Piece>, x: Piece, r: int, f: int) -> int
    decreases 8 - f,
{
    if f >= 8 {
        64
    } else if board[8 * r + f] == x {
        8 * r + f
    } else {
        leftmost(board, x, r, f + 1)
    }
}

/// The rightmost square up to file `f` of rank `r` that holds the piece `x`; 64 if there is none.
pub open spec fn rightmost(board: Seq<Piece>, x: Piece, r: int, f: int) -> int
    decreases f + 1,
{
    if f < 0 {
        64
    } else if board[8 * r + f] == x {
        8 * r + f
    } else {
        rightmost(board, x, r, f - 1)
    }
}

/// The square of the rook with which side `c` castles to the wing `t`: the outermost of its rooks
/// on the rank of its king, on that side of the king. 64 if there is none.
pub open spec fn castling_rook(board: Seq<Piece>, c: Color, t: CastleType) -> int {
    let k = king_square(board, c);
    let rook = Piece::spec_new(PieceType::Rook, c);
    if k >= 64 {
        64
    } else {
        match t {
            CastleType::QueenSide => {
                let s = leftmost(board, rook, rank_of(k), 0);
                if s < k {
                    s
                } else {
                    64
                }
            },
            CastleType::KingSide => {
                let s = rightmost(board, rook, rank_of(k), 7);
                if s > k {
                    s
                } else {
                    64
                }
            },
        }
    }
}

/// The board after the pawn on `a` has captured en passant to `ep` the pawn on `pushed`.
pub open spec fn after_ep_capture(board: Seq<Piece>, a: int, ep: int, pushed: int) -> Seq<Piece> {
    board.update(a, Piece::Empty).update(pushed, Piece::Empty).update(ep, board[a])
}

/// Whether the king of side `c`, if it has one, is not attacked.
pub open spec fn king_safe(board: Seq<Piece>, c: Color) -> bool {
    let k = king_square(board, c);
    k >= 64 || !is_attacked(board, k, c.spec_opposite())
}

/// Whether the pawn of side `c` on `a` may capture en passant to `ep` the pawn on `pushed`, without
/// leaving its own king attacked.
pub open spec fn ep_capture_legal(
    board: Seq<Piece>,
    a: int,
    ep: int,
    pushed: int,
    c: Color,
) -> bool {
    &&& board[a] == Piece::spec_new(PieceType::Pawn, c)
    &&& pawn_attacks(c, a, ep)
    &&& king_safe(after_ep_capture(board, a, ep, pushed), c)
}

/// Whether some pawn of side `c` may capture en passant to `ep` the pawn on `pushed`.
pub open spec fn ep_possible(board: Seq<Piece>, ep: int, pushed: int, c: Color) -> bool {
    exists|a: int| 0 <= a < 64 && #[trigger] ep_capture_legal(board, a, ep, pushed, c)
}

/// The board after castling: the king ends on the c-file or g-file, the rook beside it.
pub open spec fn after_castling(board: Seq<Piece>, king: int, rook: int) -> Seq<Piece> {
    let base = 8 * rank_of(king);
    let queen_side = file_of(rook) < file_of(king);
    let king_to = base + if queen_side {
        2int
    } else {
        6
    };
    let rook_to = base + if queen_side {
        3int
    } else {
        5
    };
    board.update(king, Piece::Empty).update(rook, Piece::Empty).update(king_to, board[king]).update(
        rook_to,
        board[rook],
    )
}

/// The board after the move `m`. A move with a square off the board moves nothing.
pub open spec fn board_after(board: Seq<Piece>, m: Move) -> Seq<Piece> {
    let from = m.from.idx as int;
    let to = m.to.idx as int;
    if !m.on_board() {
        board
    } else {
        match m.mtype {
            MoveType::Normal => board.update(from, Piece::Empty).update(to, board[from]),
            MoveType::Promotion => board.update(from, Piece::Empty).update(to, m.promoted),
            MoveType::EnPassant => after_ep_capture(
                board,
                from,
                to,
                8 * rank_of(from) + file_of(to),
            ),
            MoveType::Castle => after_castling(board, from, to),
        }
    }
}

/// Whether side `c` may still castle to the wing `t` after the move `m`: it could before, and
/// neither its king nor the rook for that wing has moved or been captured.
pub open spec fn right_after(p: PositionModel, m: Move, c: Color, t: CastleType) -> bool {
    let rook = castling_rook(p.board, c, t);
    &&& p.castling_rights.spec_allows(c, t)
    &&& m.on_board() ==> {
        &&& m.from.idx != king_square(p.board, c)
        &&& m.from.idx != rook
        &&& m.to.idx != rook
    }
}

/// The castling rights after the move `m`.
pub open spec fn rights_after(p: PositionModel, m: Move) -> CastlingRights {
    CastlingRights {
        white_king_side: right_after(p, m, Color::White, CastleType::KingSide),
        white_queen_side: right_after(p, m, Color::White, CastleType::QueenSide),
        black_king_side: right_after(p, m, Color::Black, CastleType::KingSide),
        black_queen_side: right_after(p, m, Color::Black, CastleType::QueenSide),
    }
}

/// Whether the move `m` advances a pawn by two squares.
pub open spec fn is_double_push(board: Seq<Piece>, m: Move) -> bool {
    &&& m.on_board()
    &&& m.mtype is Normal
    &&& board[m.from.idx as int].spec_piece_type() is Pawn
    &&& abs(m.to.idx - m.from.idx) == 16
}

/// The square behind a pawn that the move `m` has advanced by two squares, if an enemy pawn may
/// capture there; otherwise no square.
pub open spec fn ep_after(p: PositionModel, m: Move) -> Square {
    let ep = (m.from.idx + m.to.idx) / 2;
    if is_double_push(p.board, m) && ep_possible(
        board_after(p.board, m),
        ep,
        m.to.idx as int,
        p.side_to_move.spec_opposite(),
    ) {
        Square { idx: ep as u8 }
    } else {
        Square::spec_none()
    }
}

/// `x` plus one, up to the largest value.
pub open spec fn bump(x: u16) -> u16 {
    if x < 0xFFFF {
        (x + 1) as u16
    } else {
        x
    }
}

/// Whether the move `m` moves a pawn or captures.
pub open spec fn resets_rule50(board: Seq<Piece>, m: Move) -> bool {
    &&& m.on_board()
    &&& !(m.mtype is Castle)
    &&& (board[m.from.idx as int].spec_piece_type() is Pawn || board[m.to.idx as int]
        != Piece::Empty)
}

impl PositionModel {
    /// The position after the move `m`.
    pub open spec fn after_move(self, m: Move) -> PositionModel {
        PositionModel {
            board: board_after(self.board, m),
            side_to_move: self.side_to_move.spec_opposite(),
            ep_square: ep_after(self, m),
            castling_rights: rights_after(self, m),
            rule50_counter: if resets_rule50(self.board, m) {
                0
            } else {
                bump(self.rule50_counter)
            },
            fullmove: if self.side_to_move is Black {
                bump(self.fullmove)
            } else {
                self.fullmove
            },
        }
    }
}

/// Where `first_from` finds the piece.
pub proof fn lemma_first_from(board: Seq<Piece>, x: Piece, i: int)
    requires
        0 <= i <= 64,
    ensures
        i <= first_from(board, x, i) <= 64,
        first_from(board, x, i) < 64 ==> board[first_from(board, x, i)] == x,
        forall|j: int| i <= j < first_from(board, x, i) ==> board[j] != x,
    decreases 64 - i,
{
    if i < 64 && board[i] != x {
        lemma_first_from(board, x, i + 1);
    }
}

fn first_exec(board: &[Piece; 64], x: Piece) -> (r: u8)
    ensures
        r == first_from(board@, x, 0),
        r <= 64,
{
    let mut i: u8 = 0;
    while i < 64
        invariant
            i <= 64,
            first_from(board@, x, 0) == first_from(board@, x, i as int),
        decreases 64 - i,
    {
        if board[i as usize] == x {
            return i;
        }
        i = i + 1;
    }
    i
}

fn leftmost_exec(board: &[Piece; 64], x: Piece, r: u8) -> (s: u8)
    requires
        r < 8,
    ensures
        s == leftmost(board@, x, r as int, 0),
        s <= 64,
{
    let mut f: u8 = 0;
    while f < 8
        invariant
            r < 8,
            f <= 8,
            leftmost(board@, x, r as int, 0) == leftmost(board@, x, r as int, f as int),
        decreases 8 - f,
    {
        if board[(8 * r + f) as usize] == x {
            return 8 * r + f;
        }
        f = f + 1;
    }
    64
}

fn rightmost_exec(board: &[Piece; 64], x: Piece, r: u8) -> (s: u8)
    requires
        r < 8,
    ensures
        s == rightmost(board@, x, r as int, 7),
        s <= 64,
{
    let mut n: u8 = 8;
    while n > 0
        invariant
            r < 8,
            n <= 8,
            rightmost(board@, x, r as int, 7) == rightmost(board@, x, r as int, n - 1),
        decreases n,
    {
        let f: u8 = n - 1;
        if board[(8 * r + f) as usize] == x {
            return 8 * r + f;
        }
        n = n - 1;
    }
    64
}

fn king_safe_exec(board: &[Piece; 64], c: Color) -> (r: bool)
    ensures
        r == king_safe(board@, c),
{
    let k: u8 = first_exec(board, Piece::new(PieceType::King, c));
    k >= 64 || !is_attacked_exec(board, k, c.opposite())
}

/// Whether some pawn of side `c` may capture en passant to `ep` the pawn on `pushed`.
pub fn ep_possible_exec(board: &[Piece; 64], ep: u8, pushed: u8, c: Color) -> (r: bool)
    requires
        ep < 64,
        pushed < 64,
    ensures
        r == ep_possible(board@, ep as int, pushed as int, c),
{
    let pawn = Piece::new(PieceType::Pawn, c);
    let mut a: u8 = 0;
    while a < 64
        invariant
            a <= 64,
            ep < 64,
            pushed < 64,
            pawn == Piece::spec_new(PieceType::Pawn, c),
            forall|i: int|
                0 <= i < a ==> !#[trigger] ep_capture_legal(
                    board@,
                    i,
                    ep as int,
                    pushed as int,
                    c,
                ),
        decreases 64 - a,
    {
        if board[a as usize] == pawn && pawn_attacks_exec(c, a, ep) {
            let mut next = *board;
            next[a as usize] = Piece::Empty;
            next[pushed as usize] = Piece::Empty;
            next[ep as usize] = pawn;
            assert(next@ == after_ep_capture(board@, a as int, ep as int, pushed as int));
            if king_safe_exec(&next, c) {
                assert(ep_capture_legal(board@, a as int, ep as int, pushed as int, c));
                return true;
            }
        }
        a = a + 1;
    }
    false
}

impl PartialEq for Position {
    fn eq(&self, other: &Position) -> (r: bool) {
        let mut i: usize = 0;
        while i < 64
            invariant
                i <= 64,
                forall|j: int| 0 <= j < i ==> self.board@[j] == other.board@[j],
            decreases 64 - i,
        {
            if self.board[i] != other.board[i] {
                assert(self@.board[i as int] != other@.board[i as int]);
                return false;
            }
            i = i + 1;
        }
        assert(self@.board =~= other@.board);
        self.side_to_move == other.side_to_move && self.ep_square == other.ep_square
            && self.castling_rights == other.castling_rights && self.rule50_counter
            == other.rule50_counter && self.fullmove == other.fullmove
    }
}

impl vstd::std_specs::cmp::PartialEqSpecImpl for Position {
    open spec fn obeys_eq_spec() -> bool {
        true
    }

    open spec fn eq_spec(&self, other: &Position) -> bool {
        self@ == other@
    }
}

/// The position with no piece, white to move, at the first move.
pub open spec fn empty_position() -> PositionModel {
    PositionModel {
        board: Seq::new(64, |i: int| Piece::Empty),
        side_to_move: Color::White,
        ep_square: Square::spec_none(),
        castling_rights: CastlingRights::spec_none(),
        rule50_counter: 0,
        fullmove: 1,
    }
}

impl Default for Position {
    /// The position with no piece.
    fn default() -> (r: Position)
        ensures
            r@ == empty_position(),
    {
        Position::empty()
    }
}

impl Position {
    /// The position with no piece, white to move, at the first move.
    pub fn empty() -> (r: Position)
        ensures
            r@ == empty_position(),
    {
        let r = Position {
            board: [Piece::Empty;64],
            side_to_move: Color::White,
            ep_square: Square::none(),
            castling_rights: CastlingRights::none(),
            rule50_counter: 0,
            fullmove: 1,
        };
        assert(r@.board =~= empty_position().board);
        r
    }

    /// The piece on `sq`.
    pub fn piece_at(&self, sq: Square) -> (r: Piece)
        requires
            sq.spec_on_board(),
        ensures
            r == self@.board[sq.idx as int],
    {
        self.board[sq.idx as usize]
    }

    /// Puts `piece` on `sq`.
    pub fn place(&mut self, piece: Piece, sq: Square)
        requires
            sq.spec_on_board(),
        ensures
            final(self)@ == (PositionModel {
                board: old(self)@.board.update(sq.idx as int, piece),
                ..old(self)@
            }),
    {
        self.board[sq.idx as usize] = piece;
    }

    /// The side to move.
    pub fn side_to_move(&self) -> (r: Color)
        ensures
            r == self@.side_to_move,
    {
        self.side_to_move
    }

    /// Sets the side to move.
    pub fn set_side_to_move(&mut self, c: Color)
        ensures
            final(self)@ == (PositionModel { side_to_move: c, ..old(self)@ }),
    {
        self.side_to_move = c;
    }

    /// The square to which a pawn may capture en passant.
    pub fn ep_square(&self) -> (r: Square)
        ensures
            r == self@.ep_square,
    {
        self.ep_square
    }

    /// Sets the en passant square, whether or not a capture there is possible.
    pub fn set_ep_square_unchecked(&mut self, sq: Square)
        ensures
            final(self)@ == (PositionModel { ep_square: sq, ..old(self)@ }),
    {
        self.ep_square = sq;
    }

    /// The castling rights.
    pub fn castling_rights(&self) -> (r: CastlingRights)
        ensures
            r == self@.castling_rights,
    {
        self.castling_rights
    }

    /// Sets the castling rights.
    pub fn set_castling_rights(&mut self, rights: CastlingRights)
        ensures
            final(self)@ == (PositionModel { castling_rights: rights, ..old(self)@ }),
    {
        self.castling_rights = rights;
    }

    /// Gives side `c` the right to castle to the wing `t`.
    pub fn add_castling_right(&mut self, c: Color, t: CastleType)
        ensures
            final(self)@ == (PositionModel {
                castling_rights: old(self)@.castling_rights.spec_with(c, t, true),
                ..old(self)@
            }),
    {
        self.castling_rights = self.castling_rights.with(c, t, true);
    }

    /// The number of half moves since a pawn moved or a piece was captured.
    pub fn rule50_counter(&self) -> (r: u16)
        ensures
            r == self@.rule50_counter,
    {
        self.rule50_counter
    }

    /// Sets the number of half moves since a pawn moved or a piece was captured.
    pub fn set_rule50_counter(&mut self, n: u16)
        ensures
            final(self)@ == (PositionModel { rule50_counter: n, ..old(self)@ }),
    {
        self.rule50_counter = n;
    }

    /// Sets the number of the move to the one to which the game ply `ply` belongs.
    pub fn set_ply(&mut self, ply: u16)
        ensures
            final(self)@ == (PositionModel { fullmove: (ply / 2 + 1) as u16, ..old(self)@ }),
    {
        self.fullmove = ply / 2 + 1;
    }

    /// The squares that hold a piece.
    pub fn occupied(&self) -> (r: Bitboard)
        ensures
            r@ == occupied(self@.board),
    {
        let mut r = Bitboard::empty();
        let mut i: u8 = 0;
        while i < 64
            invariant
                i <= 64,
                r@ =~= occupied(self@.board).intersect(Set::new(|j: int| j < i)),
            decreases 64 - i,
        {
            if self.board[i as usize] != Piece::Empty {
                r = r.with(i);
            }
            i = i + 1;
        }
        assert(r@ =~= occupied(self@.board));
        r
    }

    /// The squares that hold a piece of side `c`.
    pub fn pieces_bb(&self, c: Color) -> (r: Bitboard)
        ensures
            r@ == pieces_of(self@.board, c),
    {
        let mut r = Bitboard::empty();
        let mut i: u8 = 0;
        while i < 64
            invariant
                i <= 64,
                r@ =~= pieces_of(self@.board, c).intersect(Set::new(|j: int| j < i)),
            decreases 64 - i,
        {
            let piece = self.board[i as usize];
            if piece != Piece::Empty && piece.color() == c {
                r = r.with(i);
            }
            i = i + 1;
        }
        assert(r@ =~= pieces_of(self@.board, c));
        r
    }

    /// The square of the king of side `c`; no square if it has none.
    pub fn king_sq(&self, c: Color) -> (r: Square)
        ensures
            r.idx == king_square(self@.board, c),
            r.idx <= 64,
    {
        Square::new(first_exec(&self.board, Piece::new(PieceType::King, c)))
    }

    /// The square of the rook with which side `c` castles to the wing `t`; no square if it has
    /// none.
    pub fn castling_rook_sq(&self, c: Color, t: CastleType) -> (r: Square)
        ensures
            r.idx == castling_rook(self@.board, c, t),
            r.idx <= 64,
    {
        let k: u8 = self.king_sq(c).index();
        let rook = Piece::new(PieceType::Rook, c);
        if k >= 64 {
            return Square::none();
        }
        match t {
            CastleType::QueenSide => {
                let s: u8 = leftmost_exec(&self.board, rook, k / 8);
                if s < k {
                    Square::new(s)
                } else {
                    Square::none()
                }
            },
            CastleType::KingSide => {
                let s: u8 = rightmost_exec(&self.board, rook, k / 8);
                if s > k {
                    Square::new(s)
                } else {
                    Square::none()
                }
            },
        }
    }

    fn right_after(&self, mv: Move, c: Color, t: CastleType) -> (r: bool)
        ensures
            r == right_after(self@, mv, c, t),
    {
        if !self.castling_rights.allows(c, t) {
            return false;
        }
        if !(mv.from.on_board() && mv.to.on_board()) {
            return true;
        }
        let rook: u8 = self.castling_rook_sq(c, t).index();
        mv.from.idx != self.king_sq(c).index() && mv.from.idx != rook && mv.to.idx != rook
    }

    /// The position after the move `mv`. A move with a square off the board only passes the turn.
    pub fn after_move(&self, mv: Move) -> (r: Position)
        ensures
            r@ == self@.after_move(mv),
    {
        let us = self.side_to_move;
        let rights = CastlingRights {
            white_king_side: self.right_after(mv, Color::White, CastleType::KingSide),
            white_queen_side: self.right_after(mv, Color::White, CastleType::QueenSide),
            black_king_side: self.right_after(mv, Color::Black, CastleType::KingSide),
            black_queen_side: self.right_after(mv, Color::Black, CastleType::QueenSide),
        };
        let mut board = self.board;
        let mut ep = Square::none();
        let mut resets: bool = false;
        if mv.from.on_board() && mv.to.on_board() {
            let from: usize = mv.from.idx as usize;
            let to: usize = mv.to.idx as usize;
            let piece = board[from];
            let target = board[to];
            match mv.mtype {
                MoveType::Normal => {
                    board[from] = Piece::Empty;
                    board[to] = piece;
                },
                MoveType::Promotion => {
                    board[from] = Piece::Empty;
                    board[to] = mv.promoted;
                },
                MoveType::EnPassant => {
                    board[from] = Piece::Empty;
                    board[8 * (from / 8) + to % 8] = Piece::Empty;
                    board[to] = piece;
                },
                MoveType::Castle => {
                    let base: usize = 8 * (from / 8);
                    board[from] = Piece::Empty;
                    board[to] = Piece::Empty;
                    if to % 8 < from % 8 {
                        board[base + 2] = piece;
                        board[base + 3] = target;
                    } else {
                        board[base + 6] = piece;
                        board[base + 5] = target;
                    }
                },
            }
            let pawn: bool = piece.piece_type() == PieceType::Pawn;
            resets = mv.mtype != MoveType::Castle && (pawn || target != Piece::Empty);
            if mv.mtype == MoveType::Normal && pawn && (to == from + 16 || from == to + 16) {
                assert(board@ == board_after(self@.board, mv));
                let mid: u8 = (mv.from.idx + mv.to.idx) / 2;
                if ep_possible_exec(&board, mid, mv.to.idx, us.opposite()) {
                    ep = Square::new(mid);
                }
            }
        }
        assert(board@ =~= board_after(self@.board, mv));
        let rule50: u16 = if resets {
            0
        } else if self.rule50_counter < 0xFFFF {
            self.rule50_counter + 1
        } else {
            self.rule50_counter
        };
        let fullmove: u16 = if us == Color::Black && self.fullmove < 0xFFFF {
            self.fullmove + 1
        } else {
            self.fullmove
        };
        Position {
            board,
            side_to_move: us.opposite(),
            ep_square: ep,
            castling_rights: rights,
            rule50_counter: rule50,
            fullmove,
        }
    }
}

} // verus!
