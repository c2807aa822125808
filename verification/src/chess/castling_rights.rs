//! Castling rights.
use vstd::prelude::*;

use crate::chess::color::Color;

verus! {

/// The wing to which a king castles.
#[derive(Debug, Clone, Copy, PartialEq, Eq, Structural)]
pub enum CastleType {
    KingSide,
    QueenSide,
}

/// Which castlings are still allowed.
#[derive(Debug, Clone, Copy, PartialEq, Eq, Structural)]
pub struct CastlingRights {
    pub white_king_side: bool,
    pub white_queen_side: bool,
    pub black_king_side: bool,
    pub black_queen_side: bool,
}

impl CastlingRights {
    /// No right.
    pub open spec fn spec_none() -> CastlingRights {
        CastlingRights {
            white_king_side: false,
            white_queen_side: false,
            black_king_side: false,
            black_queen_side: false,
        }
    }

    /// No right.
    #[verifier::when_used_as_spec(spec_none)]
    pub fn none() -> (r: CastlingRights)
        ensures
            r == CastlingRights::spec_none(),
    {
        CastlingRights {
            white_king_side: false,
            white_queen_side: false,
            black_king_side: false,
            black_queen_side: false,
        }
    }

    /// Every right.
    pub fn all() -> (r: CastlingRights)
        ensures
            forall|c: Color, t: CastleType| #[trigger] r.spec_allows(c, t),
    {
        CastlingRights {
            white_king_side: true,
            white_queen_side: true,
            black_king_side: true,
            black_queen_side: true,
        }
    }

    /// The single right of side `c` to castle to the wing `t`.
    pub fn single(c: Color, t: CastleType) -> (r: CastlingRights)
        ensures
            r == CastlingRights::spec_none().spec_with(c, t, true),
    {
        CastlingRights::none().with(c, t, true)
    }

    /// Whether side `c` may castle to the wing `t`.
    pub open spec fn spec_allows(self, c: Color, t: CastleType) -> bool {
        match (c, t) {
            (Color::White, CastleType::KingSide) => self.white_king_side,
            (Color::White, CastleType::QueenSide) => self.white_queen_side,
            (Color::Black, CastleType::KingSide) => self.black_king_side,
            (Color::Black, CastleType::QueenSide) => self.black_queen_side,
        }
    }

    /// Whether side `c` may castle to the wing `t`.
    #[verifier::when_used_as_spec(spec_allows)]
    pub fn allows(self, c: Color, t: CastleType) -> (r: bool)
        ensures
            r == self.spec_allows(c, t),
    {
        match (c, t) {
            (Color::White, CastleType::KingSide) => self.white_king_side,
            (Color::White, CastleType::QueenSide) => self.white_queen_side,
            (Color::Black, CastleType::KingSide) => self.black_king_side,
            (Color::Black, CastleType::QueenSide) => self.black_queen_side,
        }
    }

    /// These rights, with the right of side `c` to the wing `t` set to `allowed`.
    pub open spec fn spec_with(self, c: Color, t: CastleType, allowed: bool) -> CastlingRights {
        match (c, t) {
            (Color::White, CastleType::KingSide) => CastlingRights {
                white_king_side: allowed,
                ..self
            },
            (Color::White, CastleType::QueenSide) => CastlingRights {
                white_queen_side: allowed,
                ..self
            },
            (Color::Black, CastleType::KingSide) => CastlingRights {
                black_king_side: allowed,
                ..self
            },
            (Color::Black, CastleType::QueenSide) => CastlingRights {
                black_queen_side: allowed,
                ..self
            },
        }
    }

    /// These rights, with the right of side `c` to the wing `t` set to `allowed`.
    #[verifier::when_used_as_spec(spec_with)]
    pub fn with(self, c: Color, t: CastleType, allowed: bool) -> (r: CastlingRights)
        ensures
            r == self.spec_with(c, t, allowed),
    {
        match (c, t) {
            (Color::White, CastleType::KingSide) => CastlingRights {
                white_king_side: allowed,
                ..self
            },
            (Color::White, CastleType::QueenSide) => CastlingRights {
                white_queen_side: allowed,
                ..self
            },
            (Color::Black, CastleType::KingSide) => CastlingRights {
                black_king_side: allowed,
                ..self
            },
            (Color::Black, CastleType::QueenSide) => CastlingRights {
                black_queen_side: allowed,
                ..self
            },
        }
    }

    /// Whether every right of `other` is among these.
    pub fn contains(self, other: CastlingRights) -> (r: bool)
        ensures
            r == (forall|c: Color, t: CastleType|
                other.spec_allows(c, t) ==> #[trigger] self.spec_allows(c, t)),
    {
        let r = (!other.white_king_side || self.white_king_side) && (!other.white_queen_side
            || self.white_queen_side) && (!other.black_king_side || self.black_king_side) && (
        !other.black_queen_side || self.black_queen_side);
        assert(self.spec_allows(Color::White, CastleType::KingSide) == self.white_king_side);
        assert(self.spec_allows(Color::White, CastleType::QueenSide) == self.white_queen_side);
        assert(self.spec_allows(Color::Black, CastleType::KingSide) == self.black_king_side);
        assert(self.spec_allows(Color::Black, CastleType::QueenSide) == self.black_queen_side);
        r
    }

    /// How many rights side `c` has.
    pub open spec fn spec_count(self, c: Color) -> nat {
        (if self.spec_allows(c, CastleType::KingSide) {
            1nat
        } else {
            0
        }) + (if self.spec_allows(c, CastleType::QueenSide) {
            1nat
        } else {
            0
        })
    }

    /// How many rights side `c` has.
    pub fn count(self, c: Color) -> (r: u8)
        ensures
            r == self.spec_count(c),
            r <= 2,
    {
        let mut n: u8 = 0;
        if self.allows(c, CastleType::KingSide) {
            n = n + 1;
        }
        if self.allows(c, CastleType::QueenSide) {
            n = n + 1;
        }
        n
    }
}

/// What a castling right is after one has been set: that one is as it was set, the others are as
/// before. Each right is the one that its name says.
pub proof fn law_rights_set(
    r: CastlingRights,
    c: Color,
    t: CastleType,
    allowed: bool,
    d: Color,
    u: CastleType,
)
    ensures
        c == d && t == u ==> r.spec_with(c, t, allowed).spec_allows(d, u) == allowed,
        c != d || t != u ==> r.spec_with(c, t, allowed).spec_allows(d, u) == r.spec_allows(d, u),
        r.spec_allows(Color::White, CastleType::KingSide) == r.white_king_side,
        r.spec_allows(Color::White, CastleType::QueenSide) == r.white_queen_side,
        r.spec_allows(Color::Black, CastleType::KingSide) == r.black_king_side,
        r.spec_allows(Color::Black, CastleType::QueenSide) == r.black_queen_side,
        !CastlingRights::spec_none().spec_allows(d, u),
{
}

/// A side has as many rights as wings to which it may castle.
pub proof fn law_rights_counted(r: CastlingRights)
    ensures
        r.spec_count(Color::White) == 2 <==> r.white_king_side && r.white_queen_side,
        r.spec_count(Color::White) == 0 <==> !r.white_king_side && !r.white_queen_side,
        r.spec_count(Color::Black) == 2 <==> r.black_king_side && r.black_queen_side,
        r.spec_count(Color::Black) == 0 <==> !r.black_king_side && !r.black_queen_side,
        r.spec_count(Color::White) <= 2,
        r.spec_count(Color::Black) <= 2,
{
}

} // verus!
