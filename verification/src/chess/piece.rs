//! Pieces.
use vstd::prelude::*;

use crate::chess::color::Color;
use crate::chess::piecetype::PieceType;

verus! {

/// A piece of a side, or no piece.
#[derive(Debug, Clone, Copy, PartialEq, Eq, Structural)]
pub enum Piece {
    WhitePawn,
    BlackPawn,
    WhiteKnight,
    BlackKnight,
    WhiteBishop,
    BlackBishop,
    WhiteRook,
    BlackRook,
    WhiteQueen,
    BlackQueen,
    WhiteKing,
    BlackKing,
    Empty,
}

impl Piece {
    /// No piece.
    pub fn none() -> (r: Piece)
        ensures
            r == Piece::Empty,
    {
        Piece::Empty
    }

    /// The piece of kind `pt` and side `c`.
    pub open spec fn spec_new(pt: PieceType, c: Color) -> Piece {
        match (pt, c) {
            (PieceType::Pawn, Color::White) => Piece::WhitePawn,
            (PieceType::Pawn, Color::Black) => Piece::BlackPawn,
            (PieceType::Knight, Color::White) => Piece::WhiteKnight,
            (PieceType::Knight, Color::Black) => Piece::BlackKnight,
            (PieceType::Bishop, Color::White) => Piece::WhiteBishop,
            (PieceType::Bishop, Color::Black) => Piece::BlackBishop,
            (PieceType::Rook, Color::White) => Piece::WhiteRook,
            (PieceType::Rook, Color::Black) => Piece::BlackRook,
            (PieceType::Queen, Color::White) => Piece::WhiteQueen,
            (PieceType::Queen, Color::Black) => Piece::BlackQueen,
            (PieceType::King, Color::White) => Piece::WhiteKing,
            (PieceType::King, Color::Black) => Piece::BlackKing,
            (PieceType::Empty, _) => Piece::Empty,
        }
    }

    /// The piece of kind `pt` and side `c`.
    #[verifier::when_used_as_spec(spec_new)]
    pub fn new(pt: PieceType, c: Color) -> (r: Piece)
        ensures
            r == Piece::spec_new(pt, c),
    {
        match (pt, c) {
            (PieceType::Pawn, Color::White) => Piece::WhitePawn,
            (PieceType::Pawn, Color::Black) => Piece::BlackPawn,
            (PieceType::Knight, Color::White) => Piece::WhiteKnight,
            (PieceType::Knight, Color::Black) => Piece::BlackKnight,
            (PieceType::Bishop, Color::White) => Piece::WhiteBishop,
            (PieceType::Bishop, Color::Black) => Piece::BlackBishop,
            (PieceType::Rook, Color::White) => Piece::WhiteRook,
            (PieceType::Rook, Color::Black) => Piece::BlackRook,
            (PieceType::Queen, Color::White) => Piece::WhiteQueen,
            (PieceType::Queen, Color::Black) => Piece::BlackQueen,
            (PieceType::King, Color::White) => Piece::WhiteKing,
            (PieceType::King, Color::Black) => Piece::BlackKing,
            (PieceType::Empty, _) => Piece::Empty,
        }
    }

    /// The kind of the piece.
    pub open spec fn spec_piece_type(self) -> PieceType {
        match self {
            Piece::WhitePawn | Piece::BlackPawn => PieceType::Pawn,
            Piece::WhiteKnight | Piece::BlackKnight => PieceType::Knight,
            Piece::WhiteBishop | Piece::BlackBishop => PieceType::Bishop,
            Piece::WhiteRook | Piece::BlackRook => PieceType::Rook,
            Piece::WhiteQueen | Piece::BlackQueen => PieceType::Queen,
            Piece::WhiteKing | Piece::BlackKing => PieceType::King,
            Piece::Empty => PieceType::Empty,
        }
    }

    /// The kind of the piece.
    #[verifier::when_used_as_spec(spec_piece_type)]
    pub fn piece_type(self) -> (r: PieceType)
        ensures
            r == self.spec_piece_type(),
    {
        match self {
            Piece::WhitePawn | Piece::BlackPawn => PieceType::Pawn,
            Piece::WhiteKnight | Piece::BlackKnight => PieceType::Knight,
            Piece::WhiteBishop | Piece::BlackBishop => PieceType::Bishop,
            Piece::WhiteRook | Piece::BlackRook => PieceType::Rook,
            Piece::WhiteQueen | Piece::BlackQueen => PieceType::Queen,
            Piece::WhiteKing | Piece::BlackKing => PieceType::King,
            Piece::Empty => PieceType::Empty,
        }
    }

    /// The side of the piece; white for `Empty`.
    pub open spec fn spec_color(self) -> Color {
        match self {
            Piece::BlackPawn | Piece::BlackKnight | Piece::BlackBishop | Piece::BlackRook
            | Piece::BlackQueen | Piece::BlackKing => Color::Black,
            _ => Color::White,
        }
    }

    /// The side of the piece; white for `Empty`.
    #[verifier::when_used_as_spec(spec_color)]
    pub fn color(self) -> (r: Color)
        ensures
            r == self.spec_color(),
    {
        match self {
            Piece::BlackPawn | Piece::BlackKnight | Piece::BlackBishop | Piece::BlackRook
            | Piece::BlackQueen | Piece::BlackKing => Color::Black,
            _ => Color::White,
        }
    }

    /// Whether this is a piece of side `c`.
    pub open spec fn belongs_to(self, c: Color) -> bool {
        self != Piece::Empty && self.spec_color() == c
    }

    /// The number of the piece: twice its kind, plus one for black; 12 for `Empty`.
    pub open spec fn spec_id(self) -> u8 {
        match self {
            Piece::WhitePawn => 0,
            Piece::BlackPawn => 1,
            Piece::WhiteKnight => 2,
            Piece::BlackKnight => 3,
            Piece::WhiteBishop => 4,
            Piece::BlackBishop => 5,
            Piece::WhiteRook => 6,
            Piece::BlackRook => 7,
            Piece::WhiteQueen => 8,
            Piece::BlackQueen => 9,
            Piece::WhiteKing => 10,
            Piece::BlackKing => 11,
            Piece::Empty => 12,
        }
    }

    /// The number of the piece: twice its kind, plus one for black; 12 for `Empty`.
    #[verifier::when_used_as_spec(spec_id)]
    pub fn id(self) -> (r: u8)
        ensures
            r == self.spec_id(),
            r <= 12,
    {
        match self {
            Piece::WhitePawn => 0,
            Piece::BlackPawn => 1,
            Piece::WhiteKnight => 2,
            Piece::BlackKnight => 3,
            Piece::WhiteBishop => 4,
            Piece::BlackBishop => 5,
            Piece::WhiteRook => 6,
            Piece::BlackRook => 7,
            Piece::WhiteQueen => 8,
            Piece::BlackQueen => 9,
            Piece::WhiteKing => 10,
            Piece::BlackKing => 11,
            Piece::Empty => 12,
        }
    }

    /// The piece with number `id`; `Empty` for 12 and above.
    pub open spec fn spec_from_id(id: u8) -> Piece {
        match id {
            0 => Piece::WhitePawn,
            1 => Piece::BlackPawn,
            2 => Piece::WhiteKnight,
            3 => Piece::BlackKnight,
            4 => Piece::WhiteBishop,
            5 => Piece::BlackBishop,
            6 => Piece::WhiteRook,
            7 => Piece::BlackRook,
            8 => Piece::WhiteQueen,
            9 => Piece::BlackQueen,
            10 => Piece::WhiteKing,
            11 => Piece::BlackKing,
            _ => Piece::Empty,
        }
    }

    /// The piece with number `id`; `Empty` for 12 and above.
    #[verifier::when_used_as_spec(spec_from_id)]
    pub fn from_id(id: u8) -> (r: Piece)
        ensures
            r == Piece::spec_from_id(id),
    {
        match id {
            0 => Piece::WhitePawn,
            1 => Piece::BlackPawn,
            2 => Piece::WhiteKnight,
            3 => Piece::BlackKnight,
            4 => Piece::WhiteBishop,
            5 => Piece::BlackBishop,
            6 => Piece::WhiteRook,
            7 => Piece::BlackRook,
            8 => Piece::WhiteQueen,
            9 => Piece::BlackQueen,
            10 => Piece::WhiteKing,
            11 => Piece::BlackKing,
            _ => Piece::Empty,
        }
    }
}

/// A piece is that of its kind and its side, and the kind and the side of a piece are those that it
/// was made of. Its number is twice that of its kind, and one more if it is black; it is found again
/// by its number.
pub proof fn law_piece(x: Piece, pt: PieceType, c: Color)
    ensures
        Piece::spec_new(x.spec_piece_type(), x.spec_color()) == x,
        Piece::spec_new(pt, c).spec_piece_type() == pt,
        !(pt is Empty) ==> Piece::spec_new(pt, c).spec_color() == c,
        x.belongs_to(Color::White) || x.belongs_to(Color::Black) || x is Empty,
        !(x.belongs_to(Color::White) && x.belongs_to(Color::Black)),
        Piece::spec_from_id(x.spec_id()) == x,
        !(pt is Empty) ==> Piece::spec_new(pt, Color::Black).spec_id() == Piece::spec_new(
            pt,
            Color::White,
        ).spec_id() + 1,
        !(pt is Empty) ==> Piece::spec_new(pt, Color::White).spec_id() % 2 == 0,
        Piece::WhitePawn.spec_id() < Piece::WhiteKnight.spec_id() < Piece::WhiteBishop.spec_id()
            < Piece::WhiteRook.spec_id() < Piece::WhiteQueen.spec_id() < Piece::WhiteKing.spec_id()
            < 12,
{
}

} // verus!
