//! Moves.
use vstd::prelude::*;

use crate::chess::coords::Square;
use crate::chess::piece::Piece;

verus! {

/// The kind of a move.
#[derive(Debug, Clone, Copy, PartialEq, Eq, Structural)]
pub enum MoveType {
    Normal,
    Promotion,
    Castle,
    EnPassant,
}

/// A move. Castling goes from the square of the king to the square of the rook.
#[derive(Debug, Clone, Copy, PartialEq, Eq, Structural)]
pub struct Move {
    pub from: Square,
    pub to: Square,
    pub mtype: MoveType,
    pub promoted: Piece,
}

impl Move {
    /// The move of kind `mtype` from `from` to `to`, with the piece that a pawn becomes.
    pub fn new(from: Square, to: Square, mtype: MoveType, promoted: Piece) -> (r: Move)
        ensures
            r == (Move { from, to, mtype, promoted }),
    {
        Move { from, to, mtype, promoted }
    }

    /// The move that moves nothing.
    pub open spec fn spec_null() -> Move {
        Move {
            from: Square::spec_none(),
            to: Square::spec_none(),
            mtype: MoveType::Normal,
            promoted: Piece::Empty,
        }
    }

    /// The move that moves nothing.
    #[verifier::when_used_as_spec(spec_null)]
    pub fn null() -> (r: Move)
        ensures
            r == Move::spec_null(),
    {
        Move {
            from: Square::none(),
            to: Square::none(),
            mtype: MoveType::Normal,
            promoted: Piece::Empty,
        }
    }

    /// Whether both squares of the move are on the board.
    pub open spec fn on_board(self) -> bool {
        self.from.spec_on_board() && self.to.spec_on_board()
    }
}

impl Default for Move {
    /// The move that moves nothing.
    fn default() -> (r: Move)
        ensures
            r == Move::spec_null(),
    {
        Move::null()
    }
}

} // verus!
