//! Kinds of pieces.
use vstd::prelude::*;

verus! {

/// The kind of a piece, without its color. `Empty` is the kind of a vacant square.
#[derive(Debug, Clone, Copy, PartialEq, Eq, Structural)]
pub enum PieceType {
    Pawn,
    Knight,
    Bishop,
    Rook,
    Queen,
    King,
    Empty,
}

impl PieceType {
    /// The kinds a pawn may become, in the order in which moves number them.
    pub open spec fn spec_promotion(k: int) -> PieceType {
        if k == 0 {
            PieceType::Knight
        } else if k == 1 {
            PieceType::Bishop
        } else if k == 2 {
            PieceType::Rook
        } else {
            PieceType::Queen
        }
    }

    /// The `k`-th kind a pawn may become: knight, bishop, rook, queen.
    pub fn promotion(k: u8) -> (r: PieceType)
        requires
            k < 4,
        ensures
            r == PieceType::spec_promotion(k as int),
    {
        if k == 0 {
            PieceType::Knight
        } else if k == 1 {
            PieceType::Bishop
        } else if k == 2 {
            PieceType::Rook
        } else {
            PieceType::Queen
        }
    }

    /// Whether a pawn may become a piece of this kind.
    pub open spec fn is_promotion(self) -> bool {
        self is Knight || self is Bishop || self is Rook || self is Queen
    }

    /// The number of this kind among the promotion kinds; 0 for any other kind.
    pub open spec fn spec_promotion_index(self) -> u8 {
        match self {
            PieceType::Bishop => 1,
            PieceType::Rook => 2,
            PieceType::Queen => 3,
            _ => 0,
        }
    }

    /// The number of this kind among the promotion kinds; 0 for any other kind.
    #[verifier::when_used_as_spec(spec_promotion_index)]
    pub fn promotion_index(self) -> (r: u8)
        ensures
            r == self.spec_promotion_index(),
            r < 4,
    {
        match self {
            PieceType::Bishop => 1,
            PieceType::Rook => 2,
            PieceType::Queen => 3,
            _ => 0,
        }
    }
}

} // verus!
