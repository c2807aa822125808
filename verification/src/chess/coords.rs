//! Squares of the board.
use vstd::prelude::*;

verus! {

/// The number of squares of the board, and the index of no square.
pub const SQUARES: u8 = 64;

/// A square: a1 is 0, b1 is 1, ..., h8 is 63. The index 64 stands for no square.
#[derive(Debug, Clone, Copy, PartialEq, Eq, Structural)]
pub struct Square {
    pub idx: u8,
}

/// The file of the square `i`, 0 for the a-file.
pub open spec fn file_of(i: int) -> int {
    i % 8
}

/// The rank of the square `i`, 0 for the first rank.
pub open spec fn rank_of(i: int) -> int {
    i / 8
}

impl Square {
    /// The square with index `idx`.
    pub fn new(idx: u8) -> (r: Square)
        ensures
            r.idx == idx,
    {
        Square { idx }
    }

    /// No square.
    pub open spec fn spec_none() -> Square {
        Square { idx: 64 }
    }

    /// No square.
    #[verifier::when_used_as_spec(spec_none)]
    pub fn none() -> (r: Square)
        ensures
            r == Square::spec_none(),
    {
        Square { idx: SQUARES }
    }

    /// The index of the square.
    pub fn index(self) -> (r: u8)
        ensures
            r == self.idx,
    {
        self.idx
    }

    /// Whether the square is on the board.
    pub open spec fn spec_on_board(self) -> bool {
        self.idx < 64
    }

    /// Whether the square is on the board.
    #[verifier::when_used_as_spec(spec_on_board)]
    pub fn on_board(self) -> (r: bool)
        ensures
            r == self.spec_on_board(),
    {
        self.idx < SQUARES
    }

    /// The file of the square, 0 for the a-file.
    pub fn file(self) -> (r: u8)
        ensures
            r as int == file_of(self.idx as int),
            r < 8,
    {
        self.idx % 8
    }

    /// The rank of the square, 0 for the first rank.
    pub fn rank(self) -> (r: u8)
        ensures
            r as int == rank_of(self.idx as int),
    {
        self.idx / 8
    }
}

} // verus!
