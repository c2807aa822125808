//! A position in twenty-four bytes.
use vstd::prelude::*;

use crate::chess::bitboard::{
    count, count_below, lemma_nth, lemma_nth_of_count, lemma_squares_injective, lemma_word_exists,
    nth, squares, Bitboard,
};
use crate::chess::castling_rights::{CastleType, CastlingRights};
use crate::chess::color::Color;
use crate::chess::coords::{file_of, rank_of, Square};
use crate::chess::piece::Piece;
use crate::chess::piecetype::PieceType;
use crate::chess::position::{king_square, lemma_first_from, occupied, Position, PositionModel};

verus! {

/// A position as it is stored: the set of occupied squares, and four bits for each of them in
/// order, the low half of a byte before the high half. The four bits hold the number of the piece,
/// or one of four marks: 12 for a pawn that can be captured en passant, 13 and 14 for a white and a
/// black rook with which its side may castle, and 15 for the black king if black is to move.
#[derive(Debug, Clone, Copy, Eq)]
pub struct CompressedPosition {
    pub occupied: Bitboard,
    pub packed_state: [u8; 16],
}

/// What a compressed position means: a word and sixteen bytes.
#[verifier::ext_equal]
pub struct CompressedModel {
    pub occupied: u64,
    pub packed: Seq<u8>,
}

impl View for CompressedPosition {
    type V = CompressedModel;

    open spec fn view(&self) -> CompressedModel {
        CompressedModel { occupied: self.occupied.bits, packed: self.packed_state@ }
    }
}

impl PartialEq for CompressedPosition {
    fn eq(&self, other: &CompressedPosition) -> (r: bool) {
        let mut i: usize = 0;
        while i < 16
            invariant
                i <= 16,
                forall|j: int| 0 <= j < i ==> self.packed_state@[j] == other.packed_state@[j],
            decreases 16 - i,
        {
            if self.packed_state[i] != other.packed_state[i] {
                assert(self@.packed[i as int] != other@.packed[i as int]);
                return false;
            }
            i = i + 1;
        }
        assert(self@.packed =~= other@.packed);
        self.occupied == other.occupied
    }
}

impl vstd::std_specs::cmp::PartialEqSpecImpl for CompressedPosition {
    open spec fn obeys_eq_spec() -> bool {
        true
    }

    open spec fn eq_spec(&self, other: &CompressedPosition) -> bool {
        self@ == other@
    }
}

/// The word whose bits are the squares of `s`.
pub open spec fn word_of(s: Set<int>) -> u64 {
    choose|w: u64| squares(w) == s
}

/// The `k`-th half byte of `packed`.
pub open spec fn half(packed: Seq<u8>, k: int) -> u8 {
    if k % 2 == 0 {
        (packed[k / 2] % 16) as u8
    } else {
        (packed[k / 2] / 16) as u8
    }
}

/// Whether the pawn on `sq` has just advanced by two squares and can be captured en passant.
pub open spec fn is_ep_pawn(p: PositionModel, sq: int) -> bool {
    ||| p.board[sq] == Piece::WhitePawn && rank_of(sq) == 3 && p.ep_square.idx == sq - 8
    ||| p.board[sq] == Piece::BlackPawn && rank_of(sq) == 4 && p.ep_square.idx == sq + 8
}

/// Whether `sq` holds a rook with which side `c` may castle: it stands on the rank of its king, and
/// its side may castle to the wing on which it stands.
pub open spec fn is_castling_rook(p: PositionModel, c: Color, sq: int) -> bool {
    let k = king_square(p.board, c);
    &&& p.board[sq] == Piece::spec_new(PieceType::Rook, c)
    &&& rank_of(sq) == rank_of(k)
    &&& p.castling_rights.spec_allows(c, wing(sq, k))
}

/// The wing on which the square `sq` lies as seen from a king on `k`.
pub open spec fn wing(sq: int, k: int) -> CastleType {
    if file_of(sq) < file_of(k) {
        CastleType::QueenSide
    } else {
        CastleType::KingSide
    }
}

/// The four bits for the piece on `sq`.
pub open spec fn pack_piece(p: PositionModel, sq: int) -> u8 {
    if is_ep_pawn(p, sq) {
        12
    } else if is_castling_rook(p, Color::White, sq) {
        13
    } else if is_castling_rook(p, Color::Black, sq) {
        14
    } else if p.board[sq] == Piece::BlackKing && p.side_to_move is Black {
        15
    } else {
        p.board[sq].spec_id()
    }
}

/// The four bits for the `k`-th occupied square; 0 past the last one.
pub open spec fn pack_kth(p: PositionModel, k: int) -> u8 {
    if k < count(occupied(p.board)) {
        pack_piece(p, nth(occupied(p.board), k))
    } else {
        0
    }
}

/// Whether a position fits: it has at most 32 pieces.
pub open spec fn fits(p: PositionModel) -> bool {
    count(occupied(p.board)) <= 32
}

/// The stored form of a position.
pub open spec fn compressed(p: PositionModel) -> CompressedModel {
    CompressedModel {
        occupied: word_of(occupied(p.board)),
        packed: Seq::new(16, |i: int| (pack_kth(p, 2 * i) + 16 * pack_kth(p, 2 * i + 1)) as u8),
    }
}

/// Whether four bits are stored for the square `sq`: it is occupied, and there is room for it.
pub open spec fn is_stored(c: CompressedModel, sq: int) -> bool {
    squares(c.occupied).contains(sq) && count_below(squares(c.occupied), sq) < 32
}

/// The four bits that are stored for the square `sq`.
pub open spec fn stored(c: CompressedModel, sq: int) -> u8 {
    half(c.packed, count_below(squares(c.occupied), sq) as int)
}

/// The piece for which four bits at the square `sq` stand.
pub open spec fn piece_of(n: u8, sq: int) -> Piece {
    if n <= 11 {
        Piece::spec_from_id(n)
    } else if n == 12 {
        if rank_of(sq) == 3 {
            Piece::WhitePawn
        } else {
            Piece::BlackPawn
        }
    } else if n == 13 {
        Piece::WhiteRook
    } else if n == 14 {
        Piece::BlackRook
    } else {
        Piece::BlackKing
    }
}

/// The stored board.
pub open spec fn stored_board(c: CompressedModel) -> Seq<Piece> {
    Seq::new(
        64,
        |sq: int|
            if is_stored(c, sq) {
                piece_of(stored(c, sq), sq)
            } else {
                Piece::Empty
            },
    )
}

/// The squares below `n` whose four bits are the mark `m`.
pub open spec fn marked(c: CompressedModel, m: u8, n: int) -> Set<int> {
    Set::new(|sq: int| 0 <= sq < n && is_stored(c, sq) && stored(c, sq) == m)
}

/// The en passant square of the last mark 12 below the square `n`; no square if there is none.
pub open spec fn ep_below(c: CompressedModel, n: int) -> Square
    decreases n,
{
    if n <= 0 {
        Square::spec_none()
    } else if marked(c, 12, 64).contains(n - 1) {
        if rank_of(n - 1) == 3 {
            Square { idx: (n - 1 - 8) as u8 }
        } else {
            Square { idx: (n - 1 + 8) as u8 }
        }
    } else {
        ep_below(c, n - 1)
    }
}

/// Whether one of `rooks` stands on the wing `t` of a king on `k`.
pub open spec fn some_on_wing(rooks: Set<int>, k: int, t: CastleType) -> bool {
    exists|sq: int| #[trigger] rooks.contains(sq) && wing(sq, k) == t
}

/// `rights`, with those added that the castling rooks `rooks` of side `c` give a king on `k`.
pub open spec fn resolved(
    rights: CastlingRights,
    c: Color,
    rooks: Set<int>,
    k: int,
) -> CastlingRights {
    rights.spec_with(
        c,
        CastleType::QueenSide,
        rights.spec_allows(c, CastleType::QueenSide) || some_on_wing(
            rooks,
            k,
            CastleType::QueenSide,
        ),
    ).spec_with(
        c,
        CastleType::KingSide,
        rights.spec_allows(c, CastleType::KingSide) || some_on_wing(
            rooks,
            k,
            CastleType::KingSide,
        ),
    )
}

/// The position that is stored: at the first move, since the clocks are not.
pub open spec fn decompressed(c: CompressedModel) -> PositionModel {
    let board = stored_board(c);
    let white = resolved(
        CastlingRights::spec_none(),
        Color::White,
        marked(c, 13, 64),
        king_square(board, Color::White),
    );
    PositionModel {
        board,
        side_to_move: if exists|sq: int| #[trigger] marked(c, 15, 64).contains(sq) {
            Color::Black
        } else {
            Color::White
        },
        ep_square: ep_below(c, 64),
        castling_rights: resolved(
            white,
            Color::Black,
            marked(c, 14, 64),
            king_square(board, Color::Black),
        ),
        rule50_counter: 0,
        fullmove: 1,
    }
}

/// Whether no mark 12 stands on the last rank, where there is no square behind it.
pub open spec fn ep_marks_inside(c: CompressedModel) -> bool {
    forall|sq: int| #[trigger] marked(c, 12, 64).contains(sq) ==> sq < 56
}

/// The eight bytes of `v`, the highest first.
pub open spec fn be64(v: u64) -> Seq<u8> {
    Seq::new(8, |i: int| (v >> ((56 - 8 * i) as u64)) as u8)
}

/// The number whose eight bytes, the highest first, begin `data`.
pub open spec fn from_be64(data: Seq<u8>) -> u64 {
    ((data[0] as u64) << 56) | ((data[1] as u64) << 48) | ((data[2] as u64) << 40) | ((
    data[3] as u64) << 32) | ((data[4] as u64) << 24) | ((data[5] as u64) << 16) | ((
    data[6] as u64) << 8) | (data[7] as u64)
}

/// The 24 bytes of a compressed position.
pub open spec fn position_bytes(c: CompressedModel) -> Seq<u8> {
    be64(c.occupied) + c.packed
}

/// The compressed position whose 24 bytes begin `data`.
pub open spec fn position_of_bytes(data: Seq<u8>) -> CompressedModel {
    CompressedModel { occupied: from_be64(data), packed: data.subrange(8, 24) }
}

proof fn lemma_be64(v: u64)
    ensures
        from_be64(be64(v)) == v,
{
    let b = be64(v);
    let b0: u8 = b[0];
    let b1: u8 = b[1];
    let b2: u8 = b[2];
    let b3: u8 = b[3];
    let b4: u8 = b[4];
    let b5: u8 = b[5];
    let b6: u8 = b[6];
    let b7: u8 = b[7];
    assert(((b0 as u64) << 56) | ((b1 as u64) << 48) | ((b2 as u64) << 40) | ((b3 as u64) << 32) | (
    (b4 as u64) << 24) | ((b5 as u64) << 16) | ((b6 as u64) << 8) | (b7 as u64) == v)
        by (bit_vector)
        requires
            b0 == (v >> 56u64) as u8,
            b1 == (v >> 48u64) as u8,
            b2 == (v >> 40u64) as u8,
            b3 == (v >> 32u64) as u8,
            b4 == (v >> 24u64) as u8,
            b5 == (v >> 16u64) as u8,
            b6 == (v >> 8u64) as u8,
            b7 == (v >> 0u64) as u8,
    ;
}

/// A compressed position is read back from the bytes that were written for it.
pub proof fn law_position_bytes_round_trip(c: CompressedModel, rest: Seq<u8>)
    requires
        c.packed.len() == 16,
    ensures
        position_of_bytes(position_bytes(c) + rest) == c,
{
    let data = position_bytes(c) + rest;
    lemma_be64(c.occupied);
    assert(forall|i: int| 0 <= i < 8 ==> data[i] == be64(c.occupied)[i]);
    assert(from_be64(data) == from_be64(be64(c.occupied)));
    assert(data.subrange(8, 24) =~= c.packed);
}

/// Whether a position, but for its clocks, can be told from its stored form: it fits, an en passant
/// square lies behind a pawn that can be captured there, black has a king if it is to move, and for
/// each castling right there is a rook on that wing of the rank of the king.
pub open spec fn storable(p: PositionModel) -> bool {
    &&& p.board.len() == 64
    &&& fits(p)
    &&& p.ep_square == Square::spec_none() || exists|sq: int|
        0 <= sq < 64 && #[trigger] is_ep_pawn(p, sq)
    &&& p.side_to_move is Black ==> king_square(p.board, Color::Black) < 64
    &&& forall|c: Color, t: CastleType|
        #[trigger] p.castling_rights.spec_allows(c, t) ==> has_castling_rook(p, c, t)
}

/// Whether a rook stands on the wing `t` of the rank of the king of side `c`, which may castle
/// there.
pub open spec fn has_castling_rook(p: PositionModel, c: Color, t: CastleType) -> bool {
    exists|sq: int|
        0 <= sq < 64 && #[trigger] is_castling_rook(p, c, sq) && wing(
            sq,
            king_square(p.board, c),
        ) == t
}

/// The position `p` at the start of a game.
pub open spec fn without_clocks(p: PositionModel) -> PositionModel {
    PositionModel { rule50_counter: 0, fullmove: 1, ..p }
}

/// The word of a position holds its occupied squares.
pub proof fn lemma_occupied_word(p: PositionModel)
    ensures
        squares(compressed(p).occupied) == occupied(p.board),
{
    let w = lemma_word_exists(occupied(p.board), 64);
    assert(squares(w) =~= occupied(p.board));
}

/// What is stored for a square of a position that fits.
pub proof fn lemma_stored(p: PositionModel, sq: int)
    requires
        p.board.len() == 64,
        fits(p),
    ensures
        is_stored(compressed(p), sq) <==> occupied(p.board).contains(sq),
        occupied(p.board).contains(sq) ==> {
            &&& stored(compressed(p), sq) == pack_piece(p, sq)
            &&& pack_piece(p, sq) < 16
        },
{
    let occ = occupied(p.board);
    let c = compressed(p);
    lemma_occupied_word(p);
    if occ.contains(sq) {
        lemma_nth_of_count(occ, sq);
        let k = count_below(occ, sq) as int;
        assert(pack_kth(p, k) == pack_piece(p, sq));
        let other = if k % 2 == 0 {
            k + 1
        } else {
            k - 1
        };
        lemma_pack_kth_small(p, k);
        lemma_pack_kth_small(p, other);
    }
}

/// What is stored for a piece takes four bits.
proof fn lemma_pack_kth_small(p: PositionModel, k: int)
    requires
        0 <= k,
    ensures
        pack_kth(p, k) < 16,
{
}

/// With no mark 12 from the square `m` on, the en passant square is that of the marks below `m`.
pub proof fn lemma_ep_below(c: CompressedModel, m: int, n: int)
    requires
        0 <= m <= n,
        forall|sq: int| m <= sq < n ==> !#[trigger] marked(c, 12, 64).contains(sq),
    ensures
        ep_below(c, n) == ep_below(c, m),
    decreases n,
{
    if m < n {
        lemma_ep_below(c, m, n - 1);
    }
}

/// The marked squares of a stored position are the pieces that the marks name.
pub proof fn lemma_marked(p: PositionModel, sq: int)
    requires
        p.board.len() == 64,
        fits(p),
    ensures
        ({
            let c = compressed(p);
            &&& marked(c, 12, 64).contains(sq) <==> 0 <= sq < 64 && is_ep_pawn(p, sq)
            &&& marked(c, 13, 64).contains(sq) <==> 0 <= sq < 64 && is_castling_rook(
                p,
                Color::White,
                sq,
            )
            &&& marked(c, 14, 64).contains(sq) <==> 0 <= sq < 64 && is_castling_rook(
                p,
                Color::Black,
                sq,
            )
            &&& marked(c, 15, 64).contains(sq) <==> 0 <= sq < 64 && p.board[sq] == Piece::BlackKing
                && p.side_to_move is Black
        }),
{
    lemma_stored(p, sq);
}

/// The castling rights of one side are those that its marked rooks show.
proof fn lemma_rights(p: PositionModel, c: Color, m: u8, rights: CastlingRights)
    requires
        storable(p),
        m == if c is White {
            13u8
        } else {
            14u8
        },
        !rights.spec_allows(c, CastleType::QueenSide),
        !rights.spec_allows(c, CastleType::KingSide),
    ensures
        forall|t: CastleType| #[trigger]
            resolved(
                rights,
                c,
                marked(compressed(p), m, 64),
                king_square(p.board, c),
            ).spec_allows(c, t) == p.castling_rights.spec_allows(c, t),
{
    let rooks = marked(compressed(p), m, 64);
    let k = king_square(p.board, c);
    assert forall|t: CastleType| #[trigger] p.castling_rights.spec_allows(c, t) == some_on_wing(
        rooks,
        k,
        t,
    ) by {
        if p.castling_rights.spec_allows(c, t) {
            assert(has_castling_rook(p, c, t));
            let sq = choose|sq: int|
                0 <= sq < 64 && #[trigger] is_castling_rook(p, c, sq) && wing(sq, k) == t;
            lemma_marked(p, sq);
            assert(rooks.contains(sq));
        }
        if some_on_wing(rooks, k, t) {
            let sq = choose|sq: int| #[trigger] rooks.contains(sq) && wing(sq, k) == t;
            lemma_marked(p, sq);
        }
    }
    assert(p.castling_rights.spec_allows(c, CastleType::QueenSide) == some_on_wing(
        rooks,
        k,
        CastleType::QueenSide,
    ));
    assert(p.castling_rights.spec_allows(c, CastleType::KingSide) == some_on_wing(
        rooks,
        k,
        CastleType::KingSide,
    ));
}

/// A storable position is read back from its stored form, at the start of a game.
pub proof fn law_position_round_trip(p: PositionModel)
    requires
        storable(p),
    ensures
        ep_marks_inside(compressed(p)),
        decompressed(compressed(p)) == without_clocks(p),
{
    let c = compressed(p);
    assert forall|sq: int| #[trigger] marked(c, 12, 64).contains(sq) implies sq < 56 by {
        lemma_marked(p, sq);
    }
    lemma_board_stored(p);
    // the side to move
    if p.side_to_move is Black {
        let k = king_square(p.board, Color::Black);
        lemma_first_from(p.board, Piece::BlackKing, 0);
        lemma_marked(p, k);
        assert(marked(c, 15, 64).contains(k));
    } else {
        assert forall|sq: int| !#[trigger] marked(c, 15, 64).contains(sq) by {
            lemma_marked(p, sq);
        }
    }
    // the en passant square
    if p.ep_square == Square::spec_none() {
        assert forall|sq: int| 0 <= sq < 64 implies !#[trigger] marked(c, 12, 64).contains(sq) by {
            lemma_marked(p, sq);
        }
        lemma_ep_below(c, 0, 64);
    } else {
        let s = choose|sq: int| 0 <= sq < 64 && #[trigger] is_ep_pawn(p, sq);
        lemma_marked(p, s);
        assert forall|sq: int| s < sq < 64 implies !#[trigger] marked(c, 12, 64).contains(sq) by {
            lemma_marked(p, sq);
        }
        lemma_ep_below(c, s + 1, 64);
    }
    // the castling rights
    let none = CastlingRights::spec_none();
    let white = resolved(none, Color::White, marked(c, 13, 64), king_square(p.board, Color::White));
    lemma_rights(p, Color::White, 13, none);
    lemma_rights(p, Color::Black, 14, white);
    let all = decompressed(c).castling_rights;
    assert(white.spec_allows(Color::White, CastleType::QueenSide) == p.castling_rights.spec_allows(
        Color::White,
        CastleType::QueenSide,
    ));
    assert(white.spec_allows(Color::White, CastleType::KingSide) == p.castling_rights.spec_allows(
        Color::White,
        CastleType::KingSide,
    ));
    assert(all.spec_allows(Color::Black, CastleType::QueenSide) == p.castling_rights.spec_allows(
        Color::Black,
        CastleType::QueenSide,
    ));
    assert(all.spec_allows(Color::Black, CastleType::KingSide) == p.castling_rights.spec_allows(
        Color::Black,
        CastleType::KingSide,
    ));
    assert(all == p.castling_rights);
    assert(decompressed(c) =~= without_clocks(p));
}

/// The board of a position that fits is read back.
pub proof fn lemma_board_stored(p: PositionModel)
    requires
        p.board.len() == 64,
        fits(p),
    ensures
        stored_board(compressed(p)) == p.board,
{
    let c = compressed(p);
    assert forall|sq: int| 0 <= sq < 64 implies stored_board(c)[sq] == p.board[sq] by {
        lemma_stored(p, sq);
        assert(occupied(p.board).contains(sq) <==> p.board[sq] != Piece::Empty);
    }
    assert(stored_board(c) =~= p.board);
}

/// The right to castle to a wing is read back if there is a castling rook on that wing.
pub proof fn lemma_rights_read(p: PositionModel, c: Color, t: CastleType)
    requires
        p.board.len() == 64,
        fits(p),
    ensures
        decompressed(compressed(p)).castling_rights.spec_allows(c, t) == has_castling_rook(p, c, t),
{
    let m = if c is White {
        13u8
    } else {
        14u8
    };
    let rooks = marked(compressed(p), m, 64);
    let k = king_square(p.board, c);
    lemma_board_stored(p);
    if has_castling_rook(p, c, t) {
        let sq = choose|sq: int|
            0 <= sq < 64 && #[trigger] is_castling_rook(p, c, sq) && wing(sq, k) == t;
        lemma_marked(p, sq);
        assert(rooks.contains(sq));
    }
    if some_on_wing(rooks, k, t) {
        let sq = choose|sq: int| #[trigger] rooks.contains(sq) && wing(sq, k) == t;
        lemma_marked(p, sq);
    }
    assert(some_on_wing(rooks, k, t) == has_castling_rook(p, c, t));
}

/// The rooks that are castling rooks are still so once a position has been stored.
proof fn lemma_castling_rook_kept(p: PositionModel, c: Color, sq: int)
    requires
        p.board.len() == 64,
        fits(p),
        0 <= sq < 64,
    ensures
        is_castling_rook(decompressed(compressed(p)), c, sq) == is_castling_rook(p, c, sq),
{
    let k = king_square(p.board, c);
    lemma_board_stored(p);
    lemma_rights_read(p, c, wing(sq, k));
    if is_castling_rook(p, c, sq) {
        assert(has_castling_rook(p, c, wing(sq, k)));
    }
}

/// The pawns that can be captured en passant can still be so once a position has been stored.
proof fn lemma_ep_pawn_kept(p: PositionModel, sq: int)
    requires
        p.board.len() == 64,
        fits(p),
        0 <= sq < 64,
    ensures
        is_ep_pawn(decompressed(compressed(p)), sq) == is_ep_pawn(p, sq),
{
    let c = compressed(p);
    lemma_board_stored(p);
    if exists|s: int| 0 <= s < 64 && #[trigger] is_ep_pawn(p, s) {
        let s = choose|s: int| 0 <= s < 64 && #[trigger] is_ep_pawn(p, s);
        lemma_marked(p, s);
        assert forall|q: int| s < q < 64 implies !#[trigger] marked(c, 12, 64).contains(q) by {
            lemma_marked(p, q);
        }
        lemma_ep_below(c, s + 1, 64);
    } else {
        assert forall|q: int| 0 <= q < 64 implies !#[trigger] marked(c, 12, 64).contains(q) by {
            lemma_marked(p, q);
        }
        lemma_ep_below(c, 0, 64);
    }
}

/// The black kings are marked as before once a position has been stored.
pub proof fn lemma_side_kept(p: PositionModel, sq: int)
    requires
        p.board.len() == 64,
        fits(p),
        0 <= sq < 64,
        p.board[sq] == Piece::BlackKing,
    ensures
        decompressed(compressed(p)).side_to_move == p.side_to_move,
{
    let c = compressed(p);
    lemma_marked(p, sq);
    if p.side_to_move is Black {
        assert(marked(c, 15, 64).contains(sq));
    } else {
        assert forall|q: int| !#[trigger] marked(c, 15, 64).contains(q) by {
            lemma_marked(p, q);
        }
    }
}

/// Storing loses nothing but what has no mark: the position that is read back has the same stored
/// form as the one that was stored, whatever its castling rights, its en passant square and its side
/// to move.
pub proof fn law_position_stored_again(p: PositionModel)
    requires
        p.board.len() == 64,
        fits(p),
    ensures
        ep_marks_inside(compressed(p)),
        fits(decompressed(compressed(p))),
        compressed(decompressed(compressed(p))) == compressed(p),
{
    let c = compressed(p);
    let q = decompressed(c);
    assert forall|sq: int| #[trigger] marked(c, 12, 64).contains(sq) implies sq < 56 by {
        lemma_marked(p, sq);
    }
    lemma_board_stored(p);
    assert(q.board == p.board);
    assert forall|sq: int| 0 <= sq < 64 implies #[trigger] pack_piece(q, sq) == pack_piece(p, sq) by {
        lemma_ep_pawn_kept(p, sq);
        lemma_castling_rook_kept(p, Color::White, sq);
        lemma_castling_rook_kept(p, Color::Black, sq);
        if p.board[sq] == Piece::BlackKing {
            lemma_side_kept(p, sq);
        }
    }
    let occ = occupied(p.board);
    assert forall|k: int| 0 <= k < 32 implies #[trigger] pack_kth(q, k) == pack_kth(p, k) by {
        if k < count(occ) {
            lemma_nth(occ, k);
        }
    }
    assert(compressed(q).packed =~= c.packed);
    assert(compressed(q) =~= c);
}

/// The stored form does not depend on the clocks.
pub proof fn lemma_clocks_not_stored(p: PositionModel, q: PositionModel)
    requires
        without_clocks(p) == without_clocks(q),
    ensures
        compressed(p) == compressed(q),
        fits(p) == fits(q),
{
    assert forall|sq: int| #[trigger] pack_piece(p, sq) == pack_piece(q, sq) by {}
    assert(compressed(p).packed =~= compressed(q).packed);
}

/// Gives side `color` the castling rights that its castling rooks `rooks` show. The stored form
/// does not say to which wing a rook castles: a rook to the left of the king castles queen-side,
/// one to the right king-side, whatever its file.
pub fn resolve_castling(pos: &mut Position, color: Color, rooks: Bitboard)
    ensures
        final(pos)@ == (PositionModel {
            castling_rights: resolved(
                old(pos)@.castling_rights,
                color,
                rooks@,
                king_square(old(pos)@.board, color),
            ),
            ..old(pos)@
        }),
{
    let ghost start = pos@;
    let ghost k = king_square(start.board, color);
    let king_file: u8 = pos.king_sq(color).file();
    let mut queen_side: bool = false;
    let mut king_side: bool = false;
    let mut i: u8 = 0;
    while i < 64
        invariant
            i <= 64,
            king_file as int == file_of(k),
            queen_side == exists|sq: int|
                #[trigger] rooks@.contains(sq) && sq < i && wing(sq, k) is QueenSide,
            king_side == exists|sq: int|
                #[trigger] rooks@.contains(sq) && sq < i && wing(sq, k) is KingSide,
        decreases 64 - i,
    {
        if rooks.has(i) {
            assert(rooks@.contains(i as int));
            if Square::new(i).file() < king_file {
                queen_side = true;
            } else {
                king_side = true;
            }
        }
        i = i + 1;
    }
    assert(forall|sq: int| #[trigger] rooks@.contains(sq) ==> sq < 64);
    assert(queen_side == some_on_wing(rooks@, k, CastleType::QueenSide));
    assert(king_side == some_on_wing(rooks@, k, CastleType::KingSide));
    if queen_side {
        pos.add_castling_right(color, CastleType::QueenSide);
    }
    if king_side {
        pos.add_castling_right(color, CastleType::KingSide);
    }
}

impl CompressedPosition {
    /// The number of bytes of a compressed position.
    pub fn byte_size() -> (r: usize)
        ensures
            r == 24,
    {
        24
    }

    /// Reads a compressed position from its 24 bytes, the occupied squares in big-endian order.
    pub fn read_from_big_endian(data: &[u8]) -> (r: CompressedPosition)
        requires
            data@.len() >= 24,
        ensures
            r@ == position_of_bytes(data@),
    {
        let occupied = Bitboard::new(
            ((data[0] as u64) << 56) | ((data[1] as u64) << 48) | ((data[2] as u64) << 40) | ((
            data[3] as u64) << 32) | ((data[4] as u64) << 24) | ((data[5] as u64) << 16) | ((
            data[6] as u64) << 8) | (data[7] as u64),
        );
        let mut packed_state: [u8; 16] = [0;16];
        let mut i: usize = 0;
        while i < 16
            invariant
                i <= 16,
                data@.len() >= 24,
                forall|j: int| 0 <= j < i ==> packed_state@[j] == data@[8 + j],
            decreases 16 - i,
        {
            packed_state[i] = data[8 + i];
            i = i + 1;
        }
        assert(packed_state@ =~= data@.subrange(8, 24));
        CompressedPosition { occupied, packed_state }
    }

    /// Writes the 24 bytes of the compressed position to the front of `data`.
    pub fn write_to_big_endian(&self, data: &mut [u8])
        requires
            old(data)@.len() >= 24,
        ensures
            final(data)@ == position_bytes(self@) + old(data)@.subrange(
                24,
                old(data)@.len() as int,
            ),
    {
        let occupied: u64 = self.occupied.bits();
        data[0] = (occupied >> 56) as u8;
        data[1] = (occupied >> 48) as u8;
        data[2] = (occupied >> 40) as u8;
        data[3] = (occupied >> 32) as u8;
        data[4] = (occupied >> 24) as u8;
        data[5] = (occupied >> 16) as u8;
        data[6] = (occupied >> 8) as u8;
        data[7] = (occupied >> 0) as u8;
        let ghost head = data@.subrange(0, 8);
        assert(head =~= be64(occupied));
        let mut i: usize = 0;
        while i < 16
            invariant
                i <= 16,
                data@.len() == old(data)@.len(),
                data@.len() >= 24,
                forall|j: int| 0 <= j < 8 ==> data@[j] == be64(self@.occupied)[j],
                forall|j: int| 0 <= j < i ==> data@[8 + j] == self@.packed[j],
                forall|j: int| 24 <= j < data@.len() ==> data@[j] == old(data)@[j],
            decreases 16 - i,
        {
            data[8 + i] = self.packed_state[i];
            i = i + 1;
        }
        assert forall|j: int| 8 <= j < 24 implies data@[j] == self@.packed[j - 8] by {
            assert(data@[8 + (j - 8)] == self@.packed[j - 8]);
        }
        assert(data@ =~= position_bytes(self@) + old(data)@.subrange(24, old(data)@.len() as int));
    }

    fn half(&self, k: u8) -> (r: u8)
        requires
            k < 32,
        ensures
            r == half(self@.packed, k as int),
            r < 16,
    {
        let chunk: u8 = self.packed_state[(k / 2) as usize];
        if k % 2 == 0 {
            chunk % 16
        } else {
            chunk / 16
        }
    }

    /// Whether no pawn on the last rank is marked as one that can be captured en passant.
    pub fn can_decompress(&self) -> (r: bool)
        ensures
            r == ep_marks_inside(self@),
    {
        let mut sq: u8 = 56;
        while sq < 64
            invariant
                56 <= sq <= 64,
                forall|j: int| 56 <= j < sq ==> !#[trigger] marked(self@, 12, 64).contains(j),
            decreases 64 - sq,
        {
            if self.occupied.has(sq) {
                let k: u8 = self.occupied.count_below(sq);
                if k < 32 && self.half(k) == 12 {
                    assert(marked(self@, 12, 64).contains(sq as int));
                    return false;
                }
            }
            sq = sq + 1;
        }
        true
    }

    /// The position that is stored. Its clocks are those of the start of a game.
    pub fn decompress(&self) -> (r: Position)
        requires
            ep_marks_inside(self@),
        ensures
            r@ == decompressed(self@),
    {
        let ghost c = self@;
        let mut pos = Position::empty();
        let mut white_castle_rooks = Bitboard::empty();
        let mut black_castle_rooks = Bitboard::empty();
        let mut sq: u8 = 0;
        let mut k: u8 = 0;
        let ghost occ = squares(c.occupied);
        while sq < 64
            invariant
                sq <= 64,
                k <= sq,
                c == self@,
                occ == squares(c.occupied),
                ep_marks_inside(c),
                k == count_below(occ, sq as int),
                pos@.board.len() == 64,
                forall|j: int| 0 <= j < sq ==> pos@.board[j] == stored_board(c)[j],
                forall|j: int| sq <= j < 64 ==> pos@.board[j] == Piece::Empty,
                pos@.side_to_move is Black <==> exists|j: int|
                    #[trigger] marked(c, 15, 64).contains(j) && j < sq,
                pos@.ep_square == ep_below(c, sq as int),
                pos@.castling_rights == CastlingRights::spec_none(),
                pos@.rule50_counter == 0,
                pos@.fullmove == 1,
                white_castle_rooks@ =~= marked(c, 13, sq as int),
                black_castle_rooks@ =~= marked(c, 14, sq as int),
            decreases 64 - sq,
        {
            let square = Square::new(sq);
            if self.occupied.has(sq) {
                assert(occ.contains(sq as int));
                if k < 32 {
                    let n: u8 = self.half(k);
                    assert(n == stored(c, sq as int));
                    assert(marked(c, n, 64).contains(sq as int));
                    if n <= 11 {
                        pos.place(Piece::from_id(n), square);
                    } else if n == 12 {
                        if square.rank() == 3 {
                            pos.place(Piece::WhitePawn, square);
                            pos.set_ep_square_unchecked(Square::new(sq - 8));
                        } else {
                            pos.place(Piece::BlackPawn, square);
                            pos.set_ep_square_unchecked(Square::new(sq + 8));
                        }
                    } else if n == 13 {
                        pos.place(Piece::WhiteRook, square);
                        white_castle_rooks = white_castle_rooks.with(sq);
                    } else if n == 14 {
                        pos.place(Piece::BlackRook, square);
                        black_castle_rooks = black_castle_rooks.with(sq);
                    } else {
                        pos.place(Piece::BlackKing, square);
                        pos.set_side_to_move(Color::Black);
                    }
                }
                k = k + 1;
            }
            sq = sq + 1;
        }
        assert(pos@.board =~= stored_board(c));
        resolve_castling(&mut pos, Color::White, white_castle_rooks);
        resolve_castling(&mut pos, Color::Black, black_castle_rooks);
        pos
    }

    fn pack_piece(pos: &Position, sq: Square, white_king: Square, black_king: Square) -> (r: u8)
        requires
            sq.spec_on_board(),
            white_king.idx == king_square(pos@.board, Color::White),
            black_king.idx == king_square(pos@.board, Color::Black),
        ensures
            r == pack_piece(pos@, sq.idx as int),
            r < 16,
    {
        let piece = pos.piece_at(sq);
        let rank: u8 = sq.rank();
        let ep_sq: u8 = pos.ep_square().index();
        if piece == Piece::WhitePawn && rank == 3 && ep_sq == sq.idx - 8 {
            return 12;
        }
        if piece == Piece::BlackPawn && rank == 4 && ep_sq == sq.idx + 8 {
            return 12;
        }
        let rights = pos.castling_rights();
        if piece == Piece::WhiteRook && rank == white_king.rank() {
            let t = if sq.file() < white_king.file() {
                CastleType::QueenSide
            } else {
                CastleType::KingSide
            };
            if rights.allows(Color::White, t) {
                return 13;
            }
        }
        if piece == Piece::BlackRook && rank == black_king.rank() {
            let t = if sq.file() < black_king.file() {
                CastleType::QueenSide
            } else {
                CastleType::KingSide
            };
            if rights.allows(Color::Black, t) {
                return 14;
            }
        }
        if piece == Piece::BlackKing && pos.side_to_move() == Color::Black {
            return 15;
        }
        piece.id()
    }

    /// The stored form of the position `pos`.
    pub fn compress(pos: &Position) -> (r: CompressedPosition)
        requires
            fits(pos@),
        ensures
            r@ == compressed(pos@),
    {
        let ghost p = pos@;
        let ghost occ = occupied(p.board);
        let bb = pos.occupied();
        let white_king = pos.king_sq(Color::White);
        let black_king = pos.king_sq(Color::Black);
        let mut packed_state: [u8; 16] = [0;16];
        let mut sq: u8 = 0;
        let mut k: u8 = 0;
        while sq < 64
            invariant
                sq <= 64,
                k <= sq,
                p == pos@,
                occ == occupied(p.board),
                bb@ == occ,
                count(occ) <= 32,
                k == count_below(occ, sq as int),
                k <= 32,
                white_king.idx == king_square(p.board, Color::White),
                black_king.idx == king_square(p.board, Color::Black),
                forall|i: int|
                    0 <= i < 16 ==> #[trigger] packed_state@[i] == (if 2 * i < k {
                        pack_kth(p, 2 * i) as int
                    } else {
                        0
                    }) + 16 * (if 2 * i + 1 < k {
                        pack_kth(p, 2 * i + 1) as int
                    } else {
                        0
                    }),
            decreases 64 - sq,
        {
            if bb.has(sq) {
                proof {
                    lemma_nth_of_count(occ, sq as int);
                }
                let n: u8 = CompressedPosition::pack_piece(
                    pos,
                    Square::new(sq),
                    white_king,
                    black_king,
                );
                assert(n == pack_kth(p, k as int));
                let idx: usize = (k / 2) as usize;
                if k % 2 == 0 {
                    packed_state[idx] = n;
                } else {
                    let low: u8 = packed_state[idx];
                    packed_state[idx] = low + n * 16;
                }
                k = k + 1;
            }
            sq = sq + 1;
        }
        proof {
            assert(squares(bb.bits) == occ);
            lemma_squares_injective(bb.bits, word_of(occ));
            assert(packed_state@ =~= compressed(p).packed);
        }
        CompressedPosition { occupied: bb, packed_state }
    }
}

} // verus!
