use sfbinpack::chess::bitboard::Bitboard;
use sfbinpack::chess::castling_rights::{CastleType, CastlingRights};
use sfbinpack::chess::color::Color;
use sfbinpack::chess::coords::Square;
use sfbinpack::chess::position::Position;
use sfbinpack::common::compressed_position::CompressedPosition;

#[test]
fn test_read_big_endian() {
    let data = [
        98, 121, 192, 21, 24, 76, 241, 100, 100, 106, 0, 4, 8, 48, 2, 17, 17, 145, 19, 117, 247, 0,
        0, 0,
    ];

    let compressed_pos = CompressedPosition::read_from_big_endian(&data);

    assert_eq!(
        CompressedPosition {
            occupied: Bitboard::new(7095913884733469028),
            packed_state: [100, 106, 0, 4, 8, 48, 2, 17, 17, 145, 19, 117, 247, 0, 0, 0]
        },
        compressed_pos
    );
}

#[test]
fn test_compressed_position() {
    let data = [
        98, 121, 192, 21, 24, 76, 241, 100, 100, 106, 0, 4, 8, 48, 2, 17, 17, 145, 19, 117, 247, 0,
        0, 0,
    ];

    let compressed_pos = CompressedPosition::read_from_big_endian(&data);
    let pos = compressed_pos.decompress();

    assert_eq!(
        pos.fen(),
        "1r3rk1/p2qnpb1/6pp/P1p1p3/3nN3/2QP2P1/R3PPBP/2B2RK1 b - - 0 1"
    );
}

#[test]
fn test_write_big_endian() {
    let data = [
        98, 121, 192, 21, 24, 76, 241, 100, 100, 106, 0, 4, 8, 48, 2, 17, 17, 145, 19, 117, 247, 0,
        0, 0,
    ];

    let compressed_pos = CompressedPosition::read_from_big_endian(&data);
    let mut new_data = [0; 24];
    compressed_pos.write_to_big_endian(&mut new_data);

    assert_eq!(data, new_data);
}

#[test]
fn test_compress_decompress() {
    let pos = Position::from_fen("1r3rk1/p2qnpb1/6pp/P1p1p3/3nN3/2QP2P1/R3PPBP/2B2RK1 b - - 0 1")
        .unwrap();

    let compressed_pos = CompressedPosition::compress(&pos);
    let decompressed_pos = compressed_pos.decompress();

    assert_eq!(pos, decompressed_pos);
}

#[test]
fn test_compress_decompress_2() {
    let pos =
        Position::from_fen("rnbqkbnr/pppppppp/8/8/8/8/PPPPPPPP/RNBQKBNR w KQkq - 0 1").unwrap();

    let compressed_pos = CompressedPosition::compress(&pos);
    let decompressed_pos = compressed_pos.decompress();

    assert_eq!(pos, decompressed_pos);
}

#[test]
fn test_compress_decompress_3() {
    let pos =
        Position::from_fen("2r3k1/4bpp1/2Q1p2P/p3P3/1p6/4B1P1/P1r2PK1/3R1R2 b - - 0 30").unwrap();

    let compressed_pos = CompressedPosition::compress(&pos);
    let decompressed_pos = compressed_pos.decompress();

    let position_without_fmt =
        Position::from_fen("2r3k1/4bpp1/2Q1p2P/p3P3/1p6/4B1P1/P1r2PK1/3R1R2 b - - 0 1").unwrap();

    assert_eq!(position_without_fmt, decompressed_pos);
}

#[test]
fn test_compress_decompress_dfrc_castling() {
    // Chess960: kings on the d-file with castling rooks on the b- and f-files, not a and h.
    let pos = Position::from_fen("1r1k1r2/8/8/8/8/8/8/1R1K1R2 w KQkq - 0 1").unwrap();
    assert_eq!(pos.castling_rights(), CastlingRights::all());

    let compressed = CompressedPosition::compress(&pos);
    let decompressed = compressed.decompress();

    assert_eq!(decompressed.castling_rights(), CastlingRights::all());
    assert_eq!(pos, decompressed);
}

#[test]
fn test_compress_decompress_dfrc_partial_rights() {
    // Only one side retains a right on each wing, and the rook is off the a- and h-files: white
    // keeps queen-side (rook c1, king e1), black keeps king-side (rook g8, king b8).
    let pos = Position::from_fen("1k4r1/8/8/8/8/8/8/2R1K3 w Qk - 0 1").unwrap();
    let expected = CastlingRights::single(Color::White, CastleType::QueenSide);
    assert!(pos.castling_rights().contains(expected));
    assert!(pos
        .castling_rights()
        .contains(CastlingRights::single(Color::Black, CastleType::KingSide)));

    let decompressed = CompressedPosition::compress(&pos).decompress();
    assert_eq!(pos, decompressed);
    assert_eq!(pos.castling_rights(), decompressed.castling_rights());
}

#[test]
fn a_position_takes_24_bytes() {
    assert_eq!(CompressedPosition::byte_size(), 24);
}

#[test]
fn compressing_gives_the_stored_form() {
    let pos = Position::from_fen("1r3rk1/p2qnpb1/6pp/P1p1p3/3nN3/2QP2P1/R3PPBP/2B2RK1 b - - 0 1")
        .unwrap();
    let mut data = [0; 24];
    CompressedPosition::compress(&pos).write_to_big_endian(&mut data);
    assert_eq!(
        data,
        [
            98, 121, 192, 21, 24, 76, 241, 100, 100, 106, 0, 4, 8, 48, 2, 17, 17, 145, 19, 117,
            247, 0, 0, 0,
        ]
    );
}

#[test]
fn the_start_position_marks_its_rooks() {
    let pos =
        Position::from_fen("rnbqkbnr/pppppppp/8/8/8/8/PPPPPPPP/RNBQKBNR w KQkq - 0 1").unwrap();
    let c = CompressedPosition::compress(&pos);
    assert_eq!(c.occupied.bits(), 0xFFFF_0000_0000_FFFF);
    assert_eq!(
        c.packed_state,
        [
            0x2D, 0x84, 0x4A, 0xD2, 0x00, 0x00, 0x00, 0x00, 0x11, 0x11, 0x11, 0x11, 0x3E, 0x95,
            0x5B, 0xE3
        ]
    );
}

#[test]
fn the_en_passant_square_is_stored_with_the_pawn() {
    let pos =
        Position::from_fen("rnbqkbnr/ppp1pppp/8/8/3pP3/8/PPPP1PPP/RNBQKBNR b KQkq e3 0 1").unwrap();
    assert_eq!(pos.ep_square(), Square::new(20));
    let c = CompressedPosition::compress(&pos);
    let back = c.decompress();
    assert_eq!(back, pos);
    assert_eq!(back.ep_square(), Square::new(20));
}

#[test]
fn the_clocks_are_not_stored() {
    let pos = Position::from_fen("7k/8/8/8/8/8/8/K7 b - - 12 34").unwrap();
    let back = CompressedPosition::compress(&pos).decompress();
    assert_eq!(back.fen(), "7k/8/8/8/8/8/8/K7 b - - 0 1");
}

#[test]
fn a_marked_pawn_on_the_last_rank_cannot_be_decompressed() {
    let c = CompressedPosition {
        occupied: Bitboard::new(1 << 56),
        packed_state: [12, 0, 0, 0, 0, 0, 0, 0, 0, 0, 0, 0, 0, 0, 0, 0],
    };
    assert!(!c.can_decompress());
    let d = CompressedPosition {
        occupied: Bitboard::new(1 << 28),
        packed_state: [12, 0, 0, 0, 0, 0, 0, 0, 0, 0, 0, 0, 0, 0, 0, 0],
    };
    assert!(d.can_decompress());
}

#[test]
fn what_has_no_mark_is_lost_and_the_rest_is_stored_again() {
    // A right without a rook, an en passant square without a pawn, and black to move without a king.
    let mut a = Position::from_fen("4k3/8/8/8/8/8/8/4K2R w KQkq - 0 1").unwrap();
    a.set_ep_square_unchecked(Square::new(20));
    let b = Position::from_fen("8/8/8/8/8/8/8/R3K2R b KQ - 0 1").unwrap();
    let c = Position::from_fen("r1r1k1rr/8/8/8/8/8/8/4K3 b kq - 0 1").unwrap();
    for p in [a, b, c] {
        let stored = CompressedPosition::compress(&p);
        assert_eq!(CompressedPosition::compress(&stored.decompress()), stored);
    }
    let back = CompressedPosition::compress(&a).decompress();
    assert_eq!(back.fen(), "4k3/8/8/8/8/8/8/4K2R w K - 0 1");
    let back = CompressedPosition::compress(&b).decompress();
    assert_eq!(back.fen(), "8/8/8/8/8/8/8/R3K2R w KQ - 0 1");
}
