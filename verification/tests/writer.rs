use sfbinpack::chess::chess_move::{Move, MoveType};
use sfbinpack::chess::coords::Square;
use sfbinpack::chess::piece::Piece;
use sfbinpack::chess::position::Position;
use sfbinpack::common::entry::PackedTrainingDataEntry;
use sfbinpack::writer::entry_packer::{EntryPacker, MAX_MOVELIST_SIZE, SUGGESTED_CHUNK_SIZE};
use sfbinpack::{
    CompressedTrainingDataEntryReader, CompressedTrainingDataEntryWriter, CompressedWriterError,
    TrainingDataEntry,
};

/// A chain of three entries with a varying draw score.
fn sample_chain() -> Vec<TrainingDataEntry> {
    vec![
        TrainingDataEntry {
            pos: Position::from_fen("1q5b/1r5k/4p2p/1b2P1pN/3p4/6PP/1nP3B1/1Q2B1K1 w - - 0 35")
                .unwrap(),
            mv: Move::new(
                Square::new(10),
                Square::new(26),
                MoveType::Normal,
                Piece::none(),
            ),
            score: -201,
            ply: 68,
            result: 0,
            draw_score: 100,
        },
        TrainingDataEntry {
            pos: Position::from_fen("1q5b/1r5k/4p2p/1b2P1pN/2Pp4/6PP/1n4B1/1Q2B1K1 b - - 0 35")
                .unwrap(),
            mv: Move::new(
                Square::new(27),
                Square::new(19),
                MoveType::Normal,
                Piece::none(),
            ),
            score: 254,
            ply: 69,
            result: 0,
            draw_score: -3000,
        },
        TrainingDataEntry {
            pos: Position::from_fen("1q5b/1r5k/4p2p/1b2P1pN/2P5/3p2PP/1n4B1/1Q2B1K1 w - - 0 36")
                .unwrap(),
            mv: Move::new(
                Square::new(14),
                Square::new(49),
                MoveType::Normal,
                Piece::none(),
            ),
            score: -220,
            ply: 70,
            result: 0,
            draw_score: 12345,
        },
    ]
}

fn write_to_bytes(entries: &[TrainingDataEntry]) -> Vec<u8> {
    let mut writer = CompressedTrainingDataEntryWriter::new_in_memory().unwrap();
    for e in entries {
        writer.write_entry(e).unwrap();
    }
    writer.into_bytes().unwrap()
}

fn read_all(bytes: Vec<u8>) -> Vec<TrainingDataEntry> {
    let mut reader = CompressedTrainingDataEntryReader::from_bytes(bytes).unwrap();
    let mut out = Vec::new();
    while reader.has_next() {
        out.push(reader.next());
    }
    out
}

#[test]
fn test_write_read_roundtrip_with_draw() {
    let entries = sample_chain();
    let round = read_all(write_to_bytes(&entries));
    assert_eq!(round, entries);
}

#[test]
fn test_write_read_roundtrip_big_deltas() {
    let mut entries = sample_chain();
    entries[0].score = -31999;
    entries[0].draw_score = 30000;
    entries[1].score = -1500;
    entries[1].draw_score = -30000;
    entries[2].score = 32000;
    entries[2].draw_score = 30000;
    let round = read_all(write_to_bytes(&entries));
    assert_eq!(round, entries);
}

#[test]
fn test_stem_only_roundtrip_with_draw() {
    let entries = vec![sample_chain()[0]];
    let round = read_all(write_to_bytes(&entries));
    assert_eq!(round, entries);
    assert_eq!(round[0].draw_score, 100);
}

#[test]
fn test_writer_into_bytes() {
    let bytes = write_to_bytes(&[sample_chain()[0]]);
    assert!(!bytes.is_empty());
    assert_eq!(&bytes[..4], b"BINP");
}

/// Two kings, and an entry that continues the first with the given scores.
fn kings(score: i16, draw_score: i16) -> Vec<TrainingDataEntry> {
    vec![
        TrainingDataEntry {
            pos: Position::from_fen("7k/8/8/8/8/8/8/K7 w - - 0 1").unwrap(),
            mv: Move::new(
                Square::new(0),
                Square::new(8),
                MoveType::Normal,
                Piece::none(),
            ),
            score: 0,
            ply: 0,
            result: 1,
            draw_score: 0,
        },
        TrainingDataEntry {
            pos: Position::from_fen("7k/8/8/8/8/8/K7/8 b - - 1 1").unwrap(),
            mv: Move::new(
                Square::new(63),
                Square::new(62),
                MoveType::Normal,
                Piece::none(),
            ),
            score,
            ply: 1,
            result: -1,
            draw_score,
        },
    ]
}

#[test]
fn a_single_stem_has_its_bytes() {
    let bytes = write_to_bytes(&kings(0, 0)[..1]);
    assert_eq!(bytes.len(), 44);
    assert_eq!(&bytes[..8], &[66, 73, 78, 80, 36, 0, 0, 0]);
    assert_eq!(&bytes[8..16], &[0x80, 0, 0, 0, 0, 0, 0, 1]);
    assert_eq!(bytes[16], 0xBA);
    assert_eq!(&bytes[32..42], &[0, 32, 0, 0, 0x80, 0, 0, 0, 0, 0]);
    assert_eq!(&bytes[42..], &[0, 0]);
}

#[test]
fn a_ply_has_its_bits() {
    // The only piece takes no bits, the third of three moves two, and each delta five.
    let bytes = write_to_bytes(&kings(0, 0));
    assert_eq!(&bytes[42..], &[0, 1, 0x80, 0x00]);
    // A score of 1 is stored as 2.
    let bytes = write_to_bytes(&kings(1, 0));
    assert_eq!(&bytes[42..], &[0, 1, 0x84, 0x00]);
    // A draw score of -8 is stored as 15, one of 8 as 16, which takes a second block.
    let bytes = write_to_bytes(&kings(0, -8));
    assert_eq!(&bytes[42..], &[0, 1, 0x80, 0xF0]);
    let bytes = write_to_bytes(&kings(0, 8));
    assert_eq!(&bytes[42..], &[0, 1, 0x81, 0x00, 0x80]);
    for (s, d) in [(0, 0), (1, 0), (0, -8), (0, 8), (i16::MIN, i16::MAX)] {
        assert_eq!(read_all(write_to_bytes(&kings(s, d))), kings(s, d));
    }
}

#[test]
fn a_writer_appends_to_its_file() {
    let before = write_to_bytes(&kings(3, 4));
    let mut writer = CompressedTrainingDataEntryWriter::new(before.clone()).unwrap();
    assert_eq!(writer.written_bytes(), 0);
    for e in &sample_chain() {
        writer.write_entry(e).unwrap();
    }
    assert_eq!(writer.written_bytes(), 0);
    writer.flush_and_end();
    writer.flush();
    let bytes = writer.into_inner().unwrap();
    assert_eq!(&bytes[..before.len()], &before[..]);
    assert_eq!(bytes[before.len()..], write_to_bytes(&sample_chain()));
    let mut expected = kings(3, 4);
    expected.extend_from_slice(&sample_chain());
    assert_eq!(read_all(bytes), expected);
}

#[test]
fn a_large_chunk_is_ended() {
    // A stem without plies takes 36 bytes, so that 29128 of them are the first to fill a chunk.
    let e = kings(0, 0)[0];
    let n = 29128;
    assert!(36 * (n - 1) < SUGGESTED_CHUNK_SIZE && 36 * n >= SUGGESTED_CHUNK_SIZE);
    let mut writer = CompressedTrainingDataEntryWriter::new_in_memory().unwrap();
    for _ in 0..n {
        writer.write_entry(&e).unwrap();
    }
    assert_eq!(writer.written_bytes(), 0);
    writer.write_entry(&e).unwrap();
    assert_eq!(writer.written_bytes(), 8 + 36 * n as u64);
    let bytes = writer.into_bytes().unwrap();
    assert_eq!(bytes.len(), 8 + 36 * n + 8 + 36);
    let back = read_all(bytes);
    assert_eq!(back.len(), n + 1);
    assert!(back.iter().all(|x| *x == e));
}

#[test]
fn a_flush_in_between_keeps_the_entries() {
    // The entry behind the flush begins a new chain, also if it continues the last one.
    let two = kings(1, 2);
    let mut writer = CompressedTrainingDataEntryWriter::new_in_memory().unwrap();
    writer.write_entry(&two[0]).unwrap();
    writer.flush_and_end();
    assert_eq!(writer.written_bytes(), 44);
    writer.flush_and_end();
    assert_eq!(writer.written_bytes(), 44);
    writer.try_write_entry(&two[1]).unwrap();
    assert_eq!(writer.written_bytes(), 44);
    writer.write_entry(&two[0]).unwrap();
    writer.flush_and_end();
    writer.write_entry(&two[0]).unwrap();
    writer.write_entry(&two[1]).unwrap();
    let bytes = writer.into_bytes().unwrap();
    let mut expected = write_to_bytes(&two[..1]);
    expected.extend_from_slice(&write_to_bytes(&[two[1], two[0]]));
    expected.extend_from_slice(&write_to_bytes(&two));
    assert_eq!(bytes, expected);
    assert_eq!(read_all(bytes), vec![two[0], two[1], two[0], two[0], two[1]]);
}

#[test]
fn a_stem_that_is_read_otherwise_has_its_place_in_the_file() {
    let mut e = kings(0, 0)[0];
    e.ply = 0x4001;
    let ok = kings(0, 0);
    let bytes = write_to_bytes(&[e, ok[0], ok[1]]);
    let stem = PackedTrainingDataEntry::from_entry(&e).data;
    assert_eq!(&bytes[8..42], &stem);
    assert_eq!(&bytes[42..44], &[0, 0]);
    assert_eq!(bytes[44..], write_to_bytes(&ok)[8..]);
    assert_eq!(bytes[4] as usize, bytes.len() - 8);
}

#[test]
fn nothing_written_leaves_the_file_as_it_is() {
    let mut writer = CompressedTrainingDataEntryWriter::new(vec![1, 2, 3]).unwrap();
    assert_eq!(writer.into_bytes().unwrap(), vec![1, 2, 3]);
}

#[test]
fn an_entry_that_cannot_be_stored_is_refused() {
    let mut writer = CompressedTrainingDataEntryWriter::new_in_memory().unwrap();
    let mut e = kings(0, 0)[0];
    e.pos = Position::from_fen("pppppppp/pppppppp/pppppppp/pppppppp/p7/8/8/8 w - - 0 1").unwrap();
    assert!(!writer.accepts(&e));
    assert!(matches!(
        writer.try_write_entry(&e),
        Err(CompressedWriterError::InvalidFormat(_))
    ));
    let mut e = kings(0, 0)[0];
    e.result = i16::MIN;
    assert!(!writer.accepts(&e));
    let mut two = kings(0, 0);
    assert!(writer.try_write_entry(&two[0]).is_ok());
    two[1].mv.to = Square::new(0);
    assert!(!writer.accepts(&two[1]));
    assert!(writer.accepts(&kings(0, 0)[1]));
    assert!(writer.try_write_entry(&kings(0, 0)[1]).is_ok());
    assert_eq!(read_all(writer.into_bytes().unwrap()), kings(0, 0));
}

#[test]
fn a_packer_makes_a_chunk() {
    let two = kings(1, 0);
    let mut packer = EntryPacker::default();
    assert!(packer.is_empty());
    assert!(!packer.end());
    assert!(!packer.begin(&two[0]));
    assert!(packer.continues(&two[1]));
    assert!(!packer.begin(&two[1]));
    assert!(packer.has_room());
    assert!(!packer.is_full_when_closed());
    assert!(packer.end());
    assert_eq!(packer.packed(), &write_to_bytes(&two)[8..]);
    packer.reset();
    assert!(packer.is_empty());
    packer.begin_chunk(&two[0]);
    assert!(packer.end());
    assert_eq!(packer.packed(), &write_to_bytes(&two[..1])[8..]);
    assert_eq!(MAX_MOVELIST_SIZE, 10240);
    assert_eq!(SUGGESTED_CHUNK_SIZE, 1048576);
}
