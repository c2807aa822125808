use sfbinpack::chess::chess_move::{Move, MoveType};
use sfbinpack::chess::coords::Square;
use sfbinpack::chess::piece::Piece;
use sfbinpack::chess::position::Position;
use sfbinpack::common::entry::PackedTrainingDataEntry;
use sfbinpack::TrainingDataEntry;

fn sample() -> TrainingDataEntry {
    TrainingDataEntry {
        pos: Position::from_fen("1r3rk1/p2qnpb1/6pp/P1p1p3/3nN3/2QP2P1/R3PPBP/2B2RK1 b - - 2 20")
            .unwrap(),
        mv: Move::new(
            Square::new(61),
            Square::new(58),
            MoveType::Normal,
            Piece::none(),
        ),
        score: -127,
        ply: 39,
        result: 0,
        draw_score: 12345,
    }
}

#[test]
fn test_packed_entry_roundtrip() {
    let entry = TrainingDataEntry {
        pos: Position::from_fen("1r3rk1/p2qnpb1/6pp/P1p1p3/3nN3/2QP2P1/R3PPBP/2B2RK1 b - - 2 20")
            .unwrap(),
        mv: Move::new(
            Square::new(61),
            Square::new(58),
            MoveType::Normal,
            Piece::none(),
        ),
        score: -127,
        ply: 39,
        result: 0,
        draw_score: 12345,
    };

    let packed = PackedTrainingDataEntry::from_entry(&entry);
    let unpacked = packed.unpack_entry();

    assert_eq!(unpacked, entry);
    assert_eq!(unpacked.draw_score, 12345);
}

#[test]
fn test_size_of_packed_training_data_entry() {
    assert_eq!(PackedTrainingDataEntry::byte_size(), 34);
}

#[test]
fn an_entry_has_its_34_bytes() {
    let packed = PackedTrainingDataEntry::from_entry(&sample());
    assert_eq!(
        packed.data,
        [
            98, 121, 192, 21, 24, 76, 241, 100, 100, 106, 0, 4, 8, 48, 2, 17, 17, 145, 19, 117,
            247, 0, 0, 0, 0x3D, 0xE8, 0, 253, 0, 39, 0, 2, 0x60, 0x72
        ]
    );
}

#[test]
fn the_result_stands_above_the_ply() {
    let mut e = sample();
    e.result = 1;
    let packed = PackedTrainingDataEntry::from_entry(&e);
    assert_eq!(packed.data[28], 0x80);
    assert_eq!(packed.data[29], 39);
    assert_eq!(packed.unpack_entry(), e);
    e.result = -1;
    let packed = PackedTrainingDataEntry::from_entry(&e);
    assert_eq!(packed.data[28], 0x40);
    assert_eq!(packed.data[29], 39);
    assert_eq!(packed.unpack_entry(), e);
}

#[test]
fn extreme_scores_are_packed() {
    for s in [i16::MIN, -1, 0, 1, i16::MAX] {
        let mut e = sample();
        e.score = s;
        e.draw_score = s;
        assert_eq!(PackedTrainingDataEntry::from_entry(&e).unpack_entry(), e);
    }
}

#[test]
fn bytes_that_hold_no_entry_are_told() {
    let mut data = [0u8; 34];
    data[0] = 1;
    data[8] = 12;
    assert!(!PackedTrainingDataEntry::from_slice(&data).can_unpack());
    let packed = PackedTrainingDataEntry::from_entry(&sample());
    assert!(PackedTrainingDataEntry::from_slice(&packed.data).can_unpack());
}

#[test]
fn the_default_is_zero() {
    assert_eq!(PackedTrainingDataEntry::default().data, [0u8; 34]);
}

#[test]
fn more_than_32_pieces_cannot_be_packed() {
    let mut e = sample();
    assert!(PackedTrainingDataEntry::can_pack(&e));
    e.pos = Position::from_fen("pppppppp/pppppppp/pppppppp/pppppppp/p7/8/8/8 w - - 0 1").unwrap();
    assert!(!PackedTrainingDataEntry::can_pack(&e));
}

#[test]
fn a_continuation_is_told() {
    let first = TrainingDataEntry {
        pos: Position::from_fen("7k/8/8/8/8/8/8/K7 w - - 0 1").unwrap(),
        mv: Move::new(
            Square::new(0),
            Square::new(8),
            MoveType::Normal,
            Piece::none(),
        ),
        score: 0,
        ply: 0,
        result: 1,
        draw_score: 0,
    };
    let mut second = first;
    second.pos = Position::from_fen("7k/8/8/8/8/8/K7/8 b - - 1 1").unwrap();
    second.ply = 1;
    second.result = -1;
    assert!(first.is_continuation(&second));
    assert!(!second.is_continuation(&first));
    let mut other = second;
    other.result = 1;
    assert!(!first.is_continuation(&other));
    other = second;
    other.ply = 2;
    assert!(!first.is_continuation(&other));
    other = second;
    other.pos = first.pos;
    assert!(!first.is_continuation(&other));
}

#[test]
fn an_entry_as_text() {
    assert_eq!(
        sample().text(),
        "1r3rk1/p2qnpb1/6pp/P1p1p3/3nN3/2QP2P1/R3PPBP/2B2RK1 b - - 2 20 f8c8 -127 39 0 12345"
    );
}

#[test]
fn an_entry_that_is_read_otherwise_is_stored_again() {
    let mut e = sample();
    e.ply = 0x4001;
    e.pos.set_ply(7);
    let packed = PackedTrainingDataEntry::from_entry(&e);
    let back = packed.unpack_entry();
    assert_eq!((back.ply, back.result), (1, -1));
    assert_ne!(back, e);
    assert_eq!(PackedTrainingDataEntry::from_entry(&back).data, packed.data);
}
