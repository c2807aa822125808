//! A move in sixteen bits.
use vstd::arithmetic::div_mod::lemma_fundamental_div_mod_converse;
use vstd::prelude::*;

use crate::chess::chess_move::{Move, MoveType};
use crate::chess::color::Color;
use crate::chess::coords::{rank_of, Square};
use crate::chess::piece::Piece;
use crate::chess::piecetype::PieceType;
use crate::common::arithmetic::{be16, from_be16};

verus! {

/// A move in sixteen bits: from the high bits on, two for the kind of the move, six for the square
/// it starts from, six for the square it goes to, and two for what a pawn becomes. The move that
/// moves nothing is 0.
#[derive(Debug, Clone, Copy, PartialEq, Eq, Structural)]
pub struct CompressedMove {
    pub packed: u16,
}

/// The number of a kind of move.
pub open spec fn type_number(t: MoveType) -> int {
    match t {
        MoveType::Normal => 0,
        MoveType::Promotion => 1,
        MoveType::Castle => 2,
        MoveType::EnPassant => 3,
    }
}

/// The kind of move with number `k`.
pub open spec fn type_of_number(k: int) -> MoveType {
    if k == 0 {
        MoveType::Normal
    } else if k == 1 {
        MoveType::Promotion
    } else if k == 2 {
        MoveType::Castle
    } else {
        MoveType::EnPassant
    }
}

/// The number that stands for the move `m`. A move that ends where it starts moves nothing.
pub open spec fn pack_move(m: Move) -> u16 {
    if m.from == m.to {
        0
    } else {
        (type_number(m.mtype) * 0x4000 + m.from.idx * 0x100 + m.to.idx * 4
            + if m.mtype is Promotion {
            m.promoted.spec_piece_type().spec_promotion_index() as int
        } else {
            0
        }) as u16
    }
}

/// The move for which the number `packed` stands.
pub open spec fn unpack_move(packed: u16) -> Move {
    if packed == 0 {
        Move::spec_null()
    } else {
        let to = (packed / 4) % 64;
        let mtype = type_of_number((packed / 0x4000) as int);
        let c = if rank_of(to as int) == 0 {
            Color::Black
        } else {
            Color::White
        };
        Move {
            from: Square { idx: ((packed / 0x100) % 64) as u8 },
            to: Square { idx: to as u8 },
            mtype,
            promoted: if mtype is Promotion {
                Piece::spec_new(PieceType::spec_promotion((packed % 4) as int), c)
            } else {
                Piece::Empty
            },
        }
    }
}

/// Whether the squares of a move are on the board, or it moves nothing.
pub open spec fn packable(m: Move) -> bool {
    m.from == m.to || m.on_board()
}

/// Whether a move can be told from its sixteen bits: it moves nothing, or it has two different
/// squares of the board and names a piece exactly if it is a promotion, one of the side that
/// promotes on that rank.
pub open spec fn move_storable(m: Move) -> bool {
    ||| m == Move::spec_null()
    ||| {
        &&& m.on_board()
        &&& m.from != m.to
        &&& if m.mtype is Promotion {
            &&& m.promoted.spec_piece_type().is_promotion()
            &&& m.promoted.spec_color() == if rank_of(m.to.idx as int) == 0 {
                Color::Black
            } else {
                Color::White
            }
        } else {
            m.promoted == Piece::Empty
        }
    }
}

/// The four fields of a compressed move can be told from it.
pub proof fn lemma_fields(k: int, from: int, to: int, q: int)
    requires
        0 <= k < 4,
        0 <= from < 64,
        0 <= to < 64,
        0 <= q < 4,
    ensures
        ({
            let v = k * 0x4000 + from * 0x100 + to * 4 + q;
            &&& 0 <= v < 0x10000
            &&& v / 0x4000 == k
            &&& (v / 0x100) % 64 == from
            &&& (v / 4) % 64 == to
            &&& v % 4 == q
        }),
{
    let v = k * 0x4000 + from * 0x100 + to * 4 + q;
    lemma_fundamental_div_mod_converse(v, 4, k * 0x1000 + from * 64 + to, q);
    lemma_fundamental_div_mod_converse(k * 0x1000 + from * 64 + to, 64, k * 64 + from, to);
    lemma_fundamental_div_mod_converse(v, 0x100, k * 64 + from, to * 4 + q);
    lemma_fundamental_div_mod_converse(k * 64 + from, 64, k, from);
    lemma_fundamental_div_mod_converse(v, 0x4000, k, from * 0x100 + to * 4 + q);
}

/// A storable move is what its sixteen bits stand for.
pub proof fn law_move_round_trip(m: Move)
    requires
        move_storable(m),
    ensures
        unpack_move(pack_move(m)) == m,
{
    if m != Move::spec_null() {
        let k = type_number(m.mtype);
        let q = if m.mtype is Promotion {
            m.promoted.spec_piece_type().spec_promotion_index() as int
        } else {
            0
        };
        lemma_fields(k, m.from.idx as int, m.to.idx as int, q);
        assert(type_of_number(k) == m.mtype);
        if m.mtype is Promotion {
            assert(PieceType::spec_promotion(q) == m.promoted.spec_piece_type());
            assert(Piece::spec_new(m.promoted.spec_piece_type(), m.promoted.spec_color())
                == m.promoted);
        }
    }
}

/// The move that sixteen bits stand for has the same sixteen bits as the move they were made of.
pub proof fn law_move_stored_again(m: Move)
    requires
        packable(m),
    ensures
        packable(unpack_move(pack_move(m))),
        pack_move(unpack_move(pack_move(m))) == pack_move(m),
{
    if m.from != m.to {
        let k = type_number(m.mtype);
        let q = if m.mtype is Promotion {
            m.promoted.spec_piece_type().spec_promotion_index() as int
        } else {
            0
        };
        lemma_fields(k, m.from.idx as int, m.to.idx as int, q);
        let r = unpack_move(pack_move(m));
        assert(type_of_number(k) == m.mtype);
        assert(r.from == m.from && r.to == m.to && r.mtype == m.mtype);
        if m.mtype is Promotion {
            assert(r.promoted.spec_piece_type() == PieceType::spec_promotion(q));
            assert(PieceType::spec_promotion(q).spec_promotion_index() == q);
        }
    }
}

impl CompressedMove {
    /// The number of bytes of a compressed move.
    pub fn byte_size() -> (r: usize)
        ensures
            r == 2,
    {
        2
    }

    /// Reads a compressed move from its two bytes, the high one first.
    pub fn read_from_big_endian(data: &[u8]) -> (r: CompressedMove)
        requires
            data@.len() >= 2,
        ensures
            r.packed == from_be16(data@, 0),
    {
        CompressedMove { packed: data[0] as u16 * 256 + data[1] as u16 }
    }

    /// Writes the two bytes of the compressed move, the high one first.
    pub fn write_to_big_endian(&self, data: &mut [u8])
        requires
            old(data)@.len() >= 2,
        ensures
            final(data)@ == be16(self.packed) + old(data)@.subrange(2, old(data)@.len() as int),
    {
        data[0] = (self.packed / 256) as u8;
        data[1] = (self.packed % 256) as u8;
        assert(data@ =~= be16(self.packed) + old(data)@.subrange(2, old(data)@.len() as int));
    }

    /// The move for which the sixteen bits stand.
    pub fn decompress(&self) -> (r: Move)
        ensures
            r == unpack_move(self.packed),
    {
        if self.packed == 0 {
            return Move::null();
        }
        let to: u8 = ((self.packed / 4) % 64) as u8;
        let from: u8 = ((self.packed / 0x100) % 64) as u8;
        let k: u16 = self.packed / 0x4000;
        let mtype = if k == 0 {
            MoveType::Normal
        } else if k == 1 {
            MoveType::Promotion
        } else if k == 2 {
            MoveType::Castle
        } else {
            MoveType::EnPassant
        };
        let promoted = if k == 1 {
            let c = if to < 8 {
                Color::Black
            } else {
                Color::White
            };
            Piece::new(PieceType::promotion((self.packed % 4) as u8), c)
        } else {
            Piece::Empty
        };
        Move::new(Square::new(from), Square::new(to), mtype, promoted)
    }

    /// The sixteen bits that stand for the move `mv`.
    pub fn compress(mv: &Move) -> (r: CompressedMove)
        requires
            packable(*mv),
        ensures
            r.packed == pack_move(*mv),
    {
        if mv.from == mv.to {
            return CompressedMove { packed: 0 };
        }
        let k: u16 = match mv.mtype {
            MoveType::Normal => 0,
            MoveType::Promotion => 1,
            MoveType::Castle => 2,
            MoveType::EnPassant => 3,
        };
        let promotion: u16 = if mv.mtype == MoveType::Promotion {
            mv.promoted.piece_type().promotion_index() as u16
        } else {
            0
        };
        CompressedMove {
            packed: k * 0x4000 + mv.from.idx as u16 * 0x100 + mv.to.idx as u16 * 4 + promotion,
        }
    }
}

} // verus!
