use sfbinpack::chess::bitboard::Bitboard;
use sfbinpack::chess::castling_rights::{CastleType, CastlingRights};
use sfbinpack::chess::chess_move::{Move, MoveType};
use sfbinpack::chess::color::Color;
use sfbinpack::chess::coords::Square;
use sfbinpack::chess::piece::Piece;
use sfbinpack::chess::piecetype::PieceType;
use sfbinpack::chess::position::Position;
use sfbinpack::common::move_numbers::{
    count_moves, destinations_exec, is_pseudo_legal, move_of_number, number_move,
};

const START: &str = "rnbqkbnr/pppppppp/8/8/8/8/PPPPPPPP/RNBQKBNR w KQkq - 0 1";

fn position(fen: &str) -> Position {
    Position::from_fen(fen).unwrap()
}

fn normal(from: u8, to: u8) -> Move {
    Move::new(
        Square::new(from),
        Square::new(to),
        MoveType::Normal,
        Piece::none(),
    )
}

#[test]
fn positions_are_read_back_from_their_text() {
    for fen in [
        START,
        "r3k2r/p1ppqpb1/bn2pnp1/3PN3/1p2P3/2N2Q1p/PPPBBPPP/R3K2R w KQkq - 0 1",
        "8/2p5/3p4/KP5r/1R3p1k/8/4P1P1/8 w - - 0 1",
        "1q5b/1r5k/4p2p/1b2P1pN/3p4/6PP/1nP3B1/1Q2B1K1 w - - 0 35",
        "7k/8/8/8/8/8/8/K7 b - - 65535 65535",
        "8/8/8/8/8/8/8/8 w - - 0 1",
        "rnbqkbnr/ppp1pppp/8/8/3pP3/8/PPPP1PPP/RNBQKBNR b KQkq e3 0 1",
        "r3k3/8/8/8/8/8/8/R3K3 w Qq - 3 9",
    ] {
        assert_eq!(position(fen).fen(), fen);
    }
}

#[test]
fn texts_that_are_no_position_are_refused() {
    for fen in [
        "",
        "rnbqkbnr/pppppppp/8/8/8/8/PPPPPPPP/RNBQKBNR w KQkq - 0",
        "rnbqkbnr/pppppppp/8/8/8/8/PPPPPPPP/RNBQKBNR w KQkq - 0 1 2",
        "rnbqkbnr/pppppppp/8/8/8/8/PPPPPPPP w KQkq - 0 1",
        "rnbqkbnr/pppppppp/9/8/8/8/PPPPPPPP/RNBQKBNR w KQkq - 0 1",
        "rnbqkbnr/pppppppp/8/8/8/8/PPPPPPPP/RNBQKBN w KQkq - 0 1",
        "rnbqkbnr/pppppppp/8/8/8/8/PPPPPPPP/RNBQKBNRR w KQkq - 0 1",
        "rnbqkbnr/pppppppp/8/8/8/8/PPPPPPPP/RNBQKBNX w KQkq - 0 1",
        "rnbqkbnr/pppppppp/8/8/8/8/PPPPPPPP/RNBQKBNR x KQkq - 0 1",
        "rnbqkbnr/pppppppp/8/8/8/8/PPPPPPPP/RNBQKBNR w KQkx - 0 1",
        "rnbqkbnr/pppppppp/8/8/8/8/PPPPPPPP/RNBQKBNR w KQkq e9 0 1",
        "rnbqkbnr/pppppppp/8/8/8/8/PPPPPPPP/RNBQKBNR w KQkq - x 1",
        "rnbqkbnr/pppppppp/8/8/8/8/PPPPPPPP/RNBQKBNR w KQkq - 0 65536",
        "rnbqkbnr/pppppppp/8/8/8/8/PPPPPPPP/RNBQKBNR w KQkq - 0 ",
    ] {
        assert_eq!(Position::from_fen(fen), None);
    }
}

#[test]
fn an_idle_en_passant_square_is_dropped() {
    let p = position("rnbqkbnr/pppppppp/8/8/4P3/8/PPPP1PPP/RNBQKBNR b KQkq e3 0 1");
    assert_eq!(p.ep_square(), Square::none());
    let p = position("rnbqkbnr/ppp1pppp/8/8/3pP3/8/PPPP1PPP/RNBQKBNR b KQkq e3 0 1");
    assert_eq!(p.ep_square(), Square::new(20));
}

#[test]
fn a_position_has_its_parts() {
    let p = position(START);
    assert_eq!(p.piece_at(Square::new(4)), Piece::WhiteKing);
    assert_eq!(p.king_sq(Color::White), Square::new(4));
    assert_eq!(p.king_sq(Color::Black), Square::new(60));
    assert_eq!(p.side_to_move(), Color::White);
    assert_eq!(p.occupied(), Bitboard::new(0xFFFF_0000_0000_FFFF));
    assert_eq!(p.pieces_bb(Color::Black), Bitboard::new(0xFFFF_0000_0000_0000));
    assert_eq!(p.castling_rook_sq(Color::White, CastleType::KingSide), Square::new(7));
    assert_eq!(p.castling_rook_sq(Color::Black, CastleType::QueenSide), Square::new(56));
    assert_eq!(Position::empty().king_sq(Color::White), Square::none());
    assert_eq!(Position::default(), Position::empty());
}

#[test]
fn positions_differ_by_every_part() {
    let p = position("7k/8/8/8/8/8/8/K7 w - - 0 1");
    for fen in [
        "7k/8/8/8/8/8/8/1K6 w - - 0 1",
        "7k/8/8/8/8/8/8/K7 b - - 0 1",
        "7k/8/8/8/8/8/8/K7 w K - 0 1",
        "7k/8/8/8/8/8/8/K7 w - - 1 1",
        "7k/8/8/8/8/8/8/K7 w - - 0 2",
    ] {
        assert_ne!(position(fen), p);
    }
    assert_eq!(position("7k/8/8/8/8/8/8/K7 w - - 0 1"), p);
}

#[test]
fn moves_are_made() {
    // A double push sets the en passant square only if it can be used.
    assert_eq!(
        position(START).after_move(normal(12, 28)).fen(),
        "rnbqkbnr/pppppppp/8/8/4P3/8/PPPP1PPP/RNBQKBNR b KQkq - 0 1"
    );
    assert_eq!(
        position("rnbqkbnr/ppp1pppp/8/8/3p4/8/PPPPPPPP/RNBQKBNR w KQkq - 0 1")
            .after_move(normal(12, 28))
            .fen(),
        "rnbqkbnr/ppp1pppp/8/8/3pP3/8/PPPP1PPP/RNBQKBNR b KQkq e3 0 1"
    );
    // A capture that would uncover an attack on the king does not count.
    assert_eq!(
        position("1q5b/1r5k/4p2p/1b2P1pN/3p4/6PP/1nP3B1/1Q2B1K1 w - - 0 35")
            .after_move(normal(10, 26))
            .fen(),
        "1q5b/1r5k/4p2p/1b2P1pN/2Pp4/6PP/1n4B1/1Q2B1K1 b - - 0 35"
    );
    // An en passant capture takes the pawn beside it.
    assert_eq!(
        position("rnbqkbnr/ppp1pppp/8/8/3pP3/8/PPPP1PPP/RNBQKBNR b KQkq e3 0 1")
            .after_move(Move::new(
                Square::new(27),
                Square::new(20),
                MoveType::EnPassant,
                Piece::none(),
            ))
            .fen(),
        "rnbqkbnr/ppp1pppp/8/8/8/4p3/PPPP1PPP/RNBQKBNR w KQkq - 0 2"
    );
    // A king castles onto its rook.
    let castling = position("r3k2r/8/8/8/8/8/8/R3K2R w KQkq - 4 7");
    assert_eq!(
        castling
            .after_move(Move::new(
                Square::new(4),
                Square::new(7),
                MoveType::Castle,
                Piece::none(),
            ))
            .fen(),
        "r3k2r/8/8/8/8/8/8/R4RK1 b kq - 5 7"
    );
    assert_eq!(
        castling
            .after_move(Move::new(
                Square::new(4),
                Square::new(0),
                MoveType::Castle,
                Piece::none(),
            ))
            .fen(),
        "r3k2r/8/8/8/8/8/8/2KR3R b kq - 5 7"
    );
    // A rook that moves or is captured takes its right with it.
    assert_eq!(
        castling.after_move(normal(0, 56)).fen(),
        "R3k2r/8/8/8/8/8/8/4K2R b Kk - 0 7"
    );
    // A pawn promotes.
    assert_eq!(
        position("7k/P7/8/8/8/8/8/K7 w - - 3 9")
            .after_move(Move::new(
                Square::new(48),
                Square::new(56),
                MoveType::Promotion,
                Piece::WhiteQueen,
            ))
            .fen(),
        "Q6k/8/8/8/8/8/8/K7 b - - 0 9"
    );
}

#[test]
fn moves_are_numbered() {
    let p = position(START);
    // The knight on b1 has a3 and c3; the king has nothing but its two castlings.
    assert_eq!(destinations_exec(&p, 1), Bitboard::new((1 << 16) | (1 << 18)));
    assert_eq!(count_moves(&p, 1), 2);
    assert_eq!(count_moves(&p, 4), 2);
    assert_eq!(count_moves(&p, 12), 2);
    assert_eq!(number_move(&p, normal(1, 18)), (1, 2));
    assert_eq!(number_move(&p, normal(12, 20)), (0, 2));
    assert_eq!(number_move(&p, normal(12, 28)), (1, 2));
    assert_eq!(move_of_number(&p, 12, 1), Some(normal(12, 28)));
    assert_eq!(move_of_number(&p, 12, 2), None);
}

#[test]
fn promotions_and_castlings_are_numbered() {
    let p = position("1r5k/P7/8/8/8/8/8/K7 w - - 0 1");
    let m = Move::new(
        Square::new(48),
        Square::new(57),
        MoveType::Promotion,
        Piece::WhiteRook,
    );
    assert_eq!(count_moves(&p, 48), 8);
    assert_eq!(number_move(&p, m), (6, 8));
    assert_eq!(move_of_number(&p, 48, 6), Some(m));
    let p = position("r3k2r/8/8/8/8/8/8/R3K2R w KQkq - 0 1");
    let long = Move::new(Square::new(4), Square::new(0), MoveType::Castle, Piece::none());
    let short = Move::new(Square::new(4), Square::new(7), MoveType::Castle, Piece::none());
    assert_eq!(number_move(&p, long), (5, 7));
    assert_eq!(number_move(&p, short), (6, 7));
    assert_eq!(move_of_number(&p, 4, 5), Some(long));
    assert_eq!(move_of_number(&p, 4, 6), Some(short));
    let p = position("r3k2r/8/8/8/8/8/8/R3K2R w K - 0 1");
    assert_eq!(number_move(&p, short), (5, 6));
    assert_eq!(move_of_number(&p, 4, 5), Some(short));
}

#[test]
fn every_move_has_its_number() {
    let p = position("r3k2r/p1ppqpb1/bn2pnp1/3PN3/1p2P3/2N2Q1p/PPPBBPPP/R3K2R w KQkq - 0 1");
    let mut n = 0;
    for from in 0..64u8 {
        if p.pieces_bb(Color::White).has(from) {
            for k in 0..count_moves(&p, from) {
                let m = move_of_number(&p, from, k as u8).unwrap();
                assert!(is_pseudo_legal(&p, m));
                assert_eq!(number_move(&p, m), (k as u8, count_moves(&p, from)));
                n += 1;
            }
        }
    }
    assert_eq!(n, 48);
}

#[test]
fn moves_that_a_piece_does_not_have_are_told() {
    let p = position(START);
    assert!(is_pseudo_legal(&p, normal(12, 28)));
    assert!(!is_pseudo_legal(&p, normal(12, 36)));
    assert!(!is_pseudo_legal(&p, normal(52, 44)));
    assert!(!is_pseudo_legal(&p, normal(30, 31)));
    assert!(!is_pseudo_legal(&p, Move::null()));
    let mut m = normal(12, 28);
    m.mtype = MoveType::EnPassant;
    assert!(!is_pseudo_legal(&p, m));
    let mut m = normal(12, 28);
    m.promoted = Piece::WhiteQueen;
    assert!(!is_pseudo_legal(&p, m));
}

#[test]
fn bitboards_count() {
    let b = Bitboard::new(0x8000_0000_0000_0101);
    assert_eq!(b.count(), 3);
    assert_eq!(b.count_below(8), 1);
    assert_eq!(b.nth(0), Square::new(0));
    assert_eq!(b.nth(1), Square::new(8));
    assert_eq!(b.nth(2), Square::new(63));
    assert!(b.has(63) && !b.has(62));
    assert_eq!(Bitboard::empty().with(5), Bitboard::new(32));
    assert_eq!(Bitboard::new(u64::MAX).count(), 64);
}

#[test]
fn pieces_have_their_numbers() {
    for id in 0..12u8 {
        assert_eq!(Piece::from_id(id).id(), id);
    }
    assert_eq!(Piece::WhitePawn.id(), 0);
    assert_eq!(Piece::BlackPawn.id(), 1);
    assert_eq!(Piece::WhiteKing.id(), 10);
    assert_eq!(Piece::BlackKing.id(), 11);
    assert_eq!(Piece::new(PieceType::Queen, Color::Black), Piece::BlackQueen);
    assert_eq!(Piece::BlackQueen.piece_type(), PieceType::Queen);
    assert_eq!(Piece::BlackQueen.color(), Color::Black);
    assert_eq!(Color::White.opposite(), Color::Black);
}

#[test]
fn rights_are_counted() {
    let r = CastlingRights::single(Color::White, CastleType::KingSide);
    assert_eq!(r.count(Color::White), 1);
    assert_eq!(r.count(Color::Black), 0);
    assert_eq!(CastlingRights::all().count(Color::Black), 2);
    assert!(CastlingRights::all().contains(r));
    assert!(!r.contains(CastlingRights::all()));
    assert!(r.allows(Color::White, CastleType::KingSide));
    assert_eq!(
        r.with(Color::White, CastleType::KingSide, false),
        CastlingRights::none()
    );
}

#[test]
fn a_position_is_set_up() {
    let mut p = Position::empty();
    p.place(Piece::WhiteKing, Square::new(4));
    p.place(Piece::BlackKing, Square::new(60));
    p.place(Piece::WhiteRook, Square::new(7));
    p.set_side_to_move(Color::Black);
    p.set_castling_rights(CastlingRights::single(Color::White, CastleType::KingSide));
    p.set_rule50_counter(3);
    p.set_ply(21);
    assert_eq!(p.fen(), "4k3/8/8/8/8/8/8/4K2R b K - 3 11");
    p.add_castling_right(Color::White, CastleType::QueenSide);
    assert_eq!(p.castling_rights().count(Color::White), 2);
    p.set_ep_square_unchecked(Square::new(20));
    assert_eq!(p.ep_square(), Square::new(20));
}

#[test]
fn moves_have_their_text() {
    assert_eq!(normal(12, 28).as_uci(), "e2e4");
    assert_eq!(normal(0, 63).as_uci(), "a1h8");
    assert_eq!(
        Move::new(
            Square::new(48),
            Square::new(57),
            MoveType::Promotion,
            Piece::WhiteRook,
        )
        .as_uci(),
        "a7b8r"
    );
    assert_eq!(Move::default().as_uci(), "0000");
}
