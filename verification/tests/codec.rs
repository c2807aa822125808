use sfbinpack::chess::chess_move::{Move, MoveType};
use sfbinpack::chess::coords::Square;
use sfbinpack::chess::piece::Piece;
use sfbinpack::chess::position::Position;
use sfbinpack::chess::text::{append_decimal, append_signed};
use sfbinpack::common::arithmetic::{signed_to_unsigned, unsigned_to_signed, used_bits_safe};
use sfbinpack::common::binpack_error::BinpackError;
use sfbinpack::common::compressed_move::CompressedMove;
use sfbinpack::common::compressed_training_file_reader::{
    CompressedTrainingDataFileReader, Cursor,
};
use sfbinpack::common::compressed_training_file_writer::CompressedTrainingDataFileWriter;
use sfbinpack::common::frame::{chunk_header, chunk_size};
use sfbinpack::reader::bitreader::BitReader;
use sfbinpack::reader::move_score_list_reader::PackedMoveScoreListReader;
use sfbinpack::writer::bitwriter::BitWriter;
use sfbinpack::writer::move_score_list::PackedMoveScoreList;
use sfbinpack::TrainingDataEntry;

#[test]
fn signed_numbers_are_folded() {
    for (a, r) in [
        (0, 0),
        (-1, 1),
        (1, 2),
        (-2, 3),
        (i16::MAX, 65534),
        (i16::MIN, 65535),
    ] {
        assert_eq!(signed_to_unsigned(a), r);
        assert_eq!(unsigned_to_signed(r), a);
    }
    for r in 0..=u16::MAX {
        assert_eq!(signed_to_unsigned(unsigned_to_signed(r)), r);
    }
}

#[test]
fn choices_take_the_bits_they_need() {
    for (n, bits) in [(1, 0), (2, 1), (3, 2), (4, 2), (5, 3), (16, 4), (17, 5), (256, 8)] {
        assert_eq!(used_bits_safe(n), bits);
    }
}

#[test]
fn bits_are_written_from_the_highest() {
    let mut w = BitWriter::new();
    w.write_bits(0b101, 3);
    w.write_bits(0b0110, 4);
    w.write_bits(0b11, 2);
    assert_eq!(w.bytes(), &vec![0b1010_1101, 0b1000_0000]);
    let data = w.bytes().clone();
    let mut r = BitReader::new();
    assert_eq!(r.read_bits(&data, 3), 0b101);
    assert_eq!(r.read_bits(&data, 4), 0b0110);
    assert_eq!(r.read_bits(&data, 2), 0b11);
    assert_eq!(r.num_read_bytes(), 2);
    assert!(r.has_bits(&data, 7));
    assert!(!r.has_bits(&data, 8));
    w.clear();
    assert!(w.bytes().is_empty());
}

#[test]
fn numbers_are_written_in_blocks() {
    for (v, bytes) in [
        (0u16, vec![0b0000_0000]),
        (15, vec![0b0111_1000]),
        (16, vec![0b1000_0000, 0b0100_0000]),
        (0xFFFF, vec![0b1111_1111, 0b1111_1110, 0b1111_0000]),
    ] {
        let mut w = BitWriter::new();
        w.write_vle(v);
        assert_eq!(w.bytes(), &bytes);
        assert_eq!(BitReader::new().read_vle(&bytes), Some(v));
    }
    for v in 0..=u16::MAX {
        let mut w = BitWriter::new();
        w.write_vle(v);
        assert_eq!(BitReader::new().read_vle(w.bytes()), Some(v));
    }
    assert_eq!(BitReader::new().read_vle(&[0b1000_0000]), None);
    assert_eq!(BitReader::new().read_vle(&[]), None);
}

#[test]
fn choices_are_read() {
    assert_eq!(BitReader::new().read_choice(&[0b1000_0000], 3), Some(2));
    assert_eq!(BitReader::new().read_choice(&[0b1100_0000], 3), None);
    assert_eq!(BitReader::new().read_choice(&[], 3), None);
    assert_eq!(BitReader::new().read_choice(&[], 1), Some(0));
    assert_eq!(BitReader::new().read_choice(&[], 0), None);
}

#[test]
fn moves_are_packed() {
    let cases = [
        (
            Move::new(Square::new(12), Square::new(28), MoveType::Normal, Piece::none()),
            [0x0C, 0x70],
        ),
        (
            Move::new(
                Square::new(48),
                Square::new(57),
                MoveType::Promotion,
                Piece::WhiteQueen,
            ),
            [0x70, 0xE7],
        ),
        (
            Move::new(
                Square::new(8),
                Square::new(1),
                MoveType::Promotion,
                Piece::BlackKnight,
            ),
            [0x48, 0x04],
        ),
        (
            Move::new(Square::new(4), Square::new(7), MoveType::Castle, Piece::none()),
            [0x84, 0x1C],
        ),
        (
            Move::new(
                Square::new(27),
                Square::new(20),
                MoveType::EnPassant,
                Piece::none(),
            ),
            [0xDB, 0x50],
        ),
        (Move::null(), [0, 0]),
    ];
    for (m, bytes) in cases {
        let mut data = [0u8; 2];
        CompressedMove::compress(&m).write_to_big_endian(&mut data);
        assert_eq!(data, bytes);
        assert_eq!(CompressedMove::read_from_big_endian(&data).decompress(), m);
    }
    assert_eq!(CompressedMove::byte_size(), 2);
}

#[test]
fn a_move_that_is_read_otherwise_is_stored_again() {
    // A promotion to a king and a null move of a square of the board lose what they name.
    for m in [
        Move::new(
            Square::new(48),
            Square::new(56),
            MoveType::Promotion,
            Piece::WhiteKing,
        ),
        Move::new(Square::new(9), Square::new(9), MoveType::Normal, Piece::none()),
        Move::new(Square::new(1), Square::new(18), MoveType::Normal, Piece::BlackRook),
    ] {
        let stored = CompressedMove::compress(&m);
        let back = stored.decompress();
        assert_ne!(back, m);
        let (mut a, mut b) = ([0u8; 2], [0u8; 2]);
        stored.write_to_big_endian(&mut a);
        CompressedMove::compress(&back).write_to_big_endian(&mut b);
        assert_eq!(a, b);
    }
}

#[test]
fn headers_are_made_and_read() {
    let header = chunk_header(0x0102_0304);
    assert_eq!(header, [b'B', b'I', b'N', b'P', 4, 3, 2, 1]);
    assert_eq!(chunk_size(&header), Ok(0x0102_0304));
    assert_eq!(chunk_size(&chunk_header(u32::MAX)), Ok(u32::MAX));
    for i in 0..4 {
        let mut bad = header;
        bad[i] += 1;
        assert_eq!(chunk_size(&bad), Err(BinpackError::InvalidMagic));
    }
}

#[test]
fn chunks_are_framed() {
    let mut w = CompressedTrainingDataFileWriter::new(vec![7]);
    w.append(&[1, 2, 3]);
    w.append(&[]);
    assert_eq!(w.written_bytes(), 19);
    let file = w.into_inner();
    assert_eq!(&file[..12], &[7, 66, 73, 78, 80, 3, 0, 0, 0, 1, 2, 3]);
    let mut r = CompressedTrainingDataFileReader::new(Cursor::new(file[1..].to_vec()));
    let mut buffer = vec![9; 20];
    assert!(r.has_next_chunk());
    assert_eq!(r.read_next_chunk_into(&mut buffer), Ok(true));
    assert_eq!(buffer, [1, 2, 3]);
    assert_eq!(r.read_bytes(), 11);
    assert_eq!(r.read_next_chunk_into(&mut buffer), Ok(true));
    assert!(buffer.is_empty());
    assert!(!r.has_next_chunk());
    assert_eq!(r.read_next_chunk_into(&mut buffer), Ok(false));
    assert_eq!(r.read_bytes(), 19);
    assert!(r.into_inner().is_at_end());
}

#[test]
fn plies_are_read_back() {
    let stem = TrainingDataEntry {
        pos: Position::from_fen("7k/8/8/8/8/8/8/K7 w - - 0 1").unwrap(),
        mv: Move::new(Square::new(0), Square::new(8), MoveType::Normal, Piece::none()),
        score: 5,
        ply: 0,
        result: 1,
        draw_score: 7,
    };
    let pos = stem.pos.after_move(stem.mv);
    let mv = Move::new(Square::new(63), Square::new(62), MoveType::Normal, Piece::none());
    let mut list = PackedMoveScoreList::new();
    list.clear(&stem);
    list.add_move_score(&pos, mv, -5, 7);
    // Scores that are the negated last one, and draw scores that are the last one, take no more
    // than they must.
    assert_eq!(list.movetext(), &vec![0b1000_0000, 0b0000_0000]);
    let mut reader = PackedMoveScoreListReader::new(stem, 1);
    assert!(reader.has_next());
    let e = reader.try_next_entry(list.movetext()).unwrap();
    assert_eq!(e.pos, pos);
    assert_eq!(e.mv, mv);
    assert_eq!((e.score, e.draw_score), (-5, 7));
    assert_eq!((e.ply, e.result), (1, -1));
    assert!(!reader.has_next());
    assert_eq!(reader.num_read_bytes(), 2);
    assert_eq!(reader.try_next_entry(list.movetext()), None);
}

#[test]
fn numbers_have_their_text() {
    let mut s = String::new();
    append_decimal(&mut s, 0);
    append_decimal(&mut s, 1234567890);
    assert_eq!(s, "01234567890");
    let mut s = String::new();
    append_signed(&mut s, -32768);
    append_signed(&mut s, 32767);
    assert_eq!(s, "-3276832767");
}
