use sfbinpack::chess::chess_move::{Move, MoveType};
use sfbinpack::chess::coords::Square;
use sfbinpack::chess::piece::Piece;
use sfbinpack::chess::position::Position;
use sfbinpack::common::binpack_error::{BinpackError, IoError};
use sfbinpack::common::compressed_training_file_reader::Cursor;
use sfbinpack::common::entry::PackedTrainingDataEntry;
use sfbinpack::reader::chunk_reader::{parse_chunk, try_parse_chunk, ChunkReader};
use sfbinpack::reader::compressed_reader::read_chunk_into;
use sfbinpack::reader::entry_stream::{Action, EntryStream};
use sfbinpack::{
    CompressedReaderError, CompressedTrainingDataEntryReader, CompressedTrainingDataEntryWriter,
    TrainingDataEntry,
};

/// A chain of three entries with a varying draw score.
fn sample_chain() -> Vec<TrainingDataEntry> {
    vec![
        TrainingDataEntry {
            pos: Position::from_fen("1q5b/1r5k/4p2p/1b2P1pN/3p4/6PP/1nP3B1/1Q2B1K1 w - - 0 35")
                .unwrap(),
            mv: Move::new(
                Square::new(10),
                Square::new(26),
                MoveType::Normal,
                Piece::none(),
            ),
            score: -201,
            ply: 68,
            result: 0,
            draw_score: 100,
        },
        TrainingDataEntry {
            pos: Position::from_fen("1q5b/1r5k/4p2p/1b2P1pN/2Pp4/6PP/1n4B1/1Q2B1K1 b - - 0 35")
                .unwrap(),
            mv: Move::new(
                Square::new(27),
                Square::new(19),
                MoveType::Normal,
                Piece::none(),
            ),
            score: 254,
            ply: 69,
            result: 0,
            draw_score: -3000,
        },
        TrainingDataEntry {
            pos: Position::from_fen("1q5b/1r5k/4p2p/1b2P1pN/2P5/3p2PP/1n4B1/1Q2B1K1 w - - 0 36")
                .unwrap(),
            mv: Move::new(
                Square::new(14),
                Square::new(49),
                MoveType::Normal,
                Piece::none(),
            ),
            score: -220,
            ply: 70,
            result: 0,
            draw_score: 12345,
        },
    ]
}

fn write_to_bytes(entries: &[TrainingDataEntry]) -> Vec<u8> {
    let mut writer = CompressedTrainingDataEntryWriter::new_in_memory().unwrap();
    for e in entries {
        writer.write_entry(e).unwrap();
    }
    writer.into_bytes().unwrap()
}

#[test]
fn test_reader_roundtrip() {
    let entries = sample_chain();
    let bytes = write_to_bytes(&entries);

    let mut reader = CompressedTrainingDataEntryReader::from_bytes(bytes).unwrap();
    let mut got: Vec<TrainingDataEntry> = Vec::new();
    while reader.has_next() {
        got.push(reader.next());
    }

    assert_eq!(got, entries);
}

#[test]
fn test_parse_chunk() {
    // The whole chain lands in a single chunk, behind a header of eight bytes.
    let bytes = write_to_bytes(&sample_chain());
    let entries = parse_chunk(&bytes[8..]);
    assert_eq!(entries.len(), 3);
    assert_eq!(entries[2].draw_score, 12345);
}

#[test]
fn test_big_deltas_roundtrip() {
    let mut entries = sample_chain();
    entries[0].score = -31999;
    entries[0].draw_score = 30000;
    entries[1].score = -1500;
    entries[1].draw_score = -30000;
    entries[2].score = 32000;
    entries[2].draw_score = 30000;

    let bytes = write_to_bytes(&entries);
    let mut reader = CompressedTrainingDataEntryReader::from_bytes(bytes).unwrap();
    let mut got: Vec<TrainingDataEntry> = Vec::new();
    while reader.has_next() {
        got.push(reader.next());
    }
    assert_eq!(got, entries);
}

/// A file with a single chunk.
fn file_of(chunk: &[u8]) -> Vec<u8> {
    let mut file = Vec::new();
    file.extend_from_slice(b"BINP");
    file.extend_from_slice(&(chunk.len() as u32).to_le_bytes());
    file.extend_from_slice(chunk);
    file
}

#[test]
fn a_chain_without_its_text_is_told() {
    let stem = sample_chain()[0];
    let mut chunk = Vec::new();
    chunk.extend_from_slice(&PackedTrainingDataEntry::from_entry(&stem).data);
    chunk.extend_from_slice(&1u16.to_be_bytes());
    let mut reader = CompressedTrainingDataEntryReader::new(Cursor::new(file_of(&chunk))).unwrap();
    assert_eq!(reader.next(), stem);
    assert!(reader.has_next());
    assert!(reader.is_next_entry_continuation());
    assert_eq!(reader.try_next(), None);
    assert!(try_parse_chunk(&chunk).is_none());
}

#[test]
fn an_empty_file_is_at_its_end() {
    assert!(matches!(
        CompressedTrainingDataEntryReader::from_bytes(Vec::new()),
        Err(CompressedReaderError::EndOfFile)
    ));
    assert!(matches!(
        CompressedTrainingDataEntryReader::from_slice(&[]),
        Err(CompressedReaderError::EndOfFile)
    ));
}

#[test]
fn a_wrong_magic_is_an_error() {
    let mut bytes = write_to_bytes(&sample_chain());
    bytes[3] = b'X';
    assert!(matches!(
        CompressedTrainingDataEntryReader::from_bytes(bytes),
        Err(CompressedReaderError::BinpackError(
            BinpackError::InvalidMagic
        ))
    ));
}

#[test]
fn a_cut_off_file_is_an_error() {
    let bytes = write_to_bytes(&sample_chain());
    for n in [1, 7, 8, bytes.len() - 1] {
        assert!(matches!(
            CompressedTrainingDataEntryReader::from_slice(&bytes[..n]),
            Err(CompressedReaderError::BinpackError(BinpackError::Io(
                IoError::UnexpectedEof
            )))
        ));
    }
}

#[test]
fn continuations_are_announced() {
    let entries = sample_chain();
    let mut two = entries.clone();
    two.extend_from_slice(&entries[..1]);
    let mut reader = CompressedTrainingDataEntryReader::from_bytes(write_to_bytes(&two)).unwrap();
    assert!(!reader.is_next_entry_continuation());
    let first = reader.next();
    assert!(reader.is_next_entry_continuation());
    let second = reader.next();
    assert!(first.is_continuation(&second));
    assert!(reader.is_next_entry_continuation());
    reader.next();
    assert!(!reader.is_next_entry_continuation());
    assert!(reader.has_next());
    assert_eq!(reader.next(), entries[0]);
    assert!(!reader.has_next());
}

#[test]
fn read_bytes_counts_whole_chunks() {
    let one = write_to_bytes(&sample_chain());
    let mut bytes = one.clone();
    bytes.extend_from_slice(&one);
    let mut reader = CompressedTrainingDataEntryReader::from_slice(&bytes).unwrap();
    assert_eq!(reader.read_bytes(), one.len() as u64);
    reader.next();
    reader.next();
    assert_eq!(reader.read_bytes(), one.len() as u64);
    reader.next();
    assert_eq!(reader.read_bytes(), bytes.len() as u64);
    while reader.has_next() {
        reader.next();
    }
    assert_eq!(reader.read_bytes(), bytes.len() as u64);
    let file = reader.into_inner().unwrap();
    assert_eq!(file.position(), bytes.len() as u64);
    assert_eq!(file.into_inner(), bytes);
}

#[test]
fn two_files_make_a_file_with_the_entries_of_both() {
    let entries = sample_chain();
    let mut bytes = write_to_bytes(&entries);
    bytes.extend_from_slice(&write_to_bytes(&entries[..1]));
    let mut reader = CompressedTrainingDataEntryReader::from_bytes(bytes).unwrap();
    let mut got: Vec<TrainingDataEntry> = Vec::new();
    while reader.has_next() {
        got.push(reader.try_next().unwrap());
    }
    let mut expected = entries.clone();
    expected.push(entries[0]);
    assert_eq!(got, expected);
}

#[test]
fn chunks_are_read_raw() {
    let bytes = write_to_bytes(&sample_chain());
    let mut file = Cursor::new(bytes.clone());
    let mut buffer = vec![1, 2, 3];
    assert!(matches!(read_chunk_into(&mut file, &mut buffer), Ok(true)));
    assert_eq!(buffer, bytes[8..]);
    assert!(matches!(read_chunk_into(&mut file, &mut buffer), Ok(false)));
    assert_eq!(buffer, bytes[8..]);
    assert_eq!(file.position(), bytes.len() as u64);
    let mut bad = Cursor::new(vec![0; 9]);
    assert!(matches!(
        read_chunk_into(&mut bad, &mut buffer),
        Err(CompressedReaderError::BinpackError(
            BinpackError::InvalidMagic
        ))
    ));
    assert_eq!(bad.position(), 0);
}

#[test]
fn a_reader_hands_out_raw_chunks() {
    let one = write_to_bytes(&sample_chain());
    let mut bytes = one.clone();
    bytes.extend_from_slice(&file_of(&[9, 8, 7]));
    let mut reader = CompressedTrainingDataEntryReader::from_bytes(bytes).unwrap();
    let mut buffer = Vec::new();
    assert!(matches!(
        reader.read_next_chunk_into(&mut buffer),
        Ok(true)
    ));
    assert_eq!(buffer, [9, 8, 7]);
    assert!(matches!(
        reader.read_next_chunk_into(&mut buffer),
        Ok(false)
    ));
    assert_eq!(reader.next(), sample_chain()[0]);
}

#[test]
fn a_chunk_is_parsed_as_it_is_read() {
    let bytes = write_to_bytes(&sample_chain());
    let parsed = CompressedTrainingDataEntryReader::parse_chunk(&bytes[8..]);
    assert_eq!(parsed, sample_chain());
    let mut reader = ChunkReader::default();
    let mut got = Vec::new();
    while reader.has_next(&bytes[8..]) {
        got.push(reader.next(&bytes[8..]));
    }
    assert_eq!(got, parsed);
    assert!(parse_chunk(&[]).is_empty());
    assert!(parse_chunk(&bytes[8..40]).is_empty());
}

fn rest(reader: &mut CompressedTrainingDataEntryReader) -> Vec<TrainingDataEntry> {
    let mut out = Vec::new();
    while reader.has_next() {
        out.push(reader.next());
    }
    out
}

#[test]
fn a_short_chunk_holds_no_entry() {
    let file = b"BINP\x01\x00\x00\x00\x00".to_vec();
    let mut reader = CompressedTrainingDataEntryReader::new(Cursor::new(file)).unwrap();
    assert!(!reader.has_next());
    assert_eq!(reader.try_next(), None);
    assert_eq!(reader.read_bytes(), 9);
}

#[test]
fn chunks_without_an_entry_are_passed_over() {
    let entries = sample_chain();
    let full = write_to_bytes(&entries);
    let empty = file_of(&[]);
    let short = file_of(&[0; 35]);
    for parts in [
        vec![&empty, &full],
        vec![&full, &empty],
        vec![&empty, &short, &empty, &full, &short, &empty],
    ] {
        let mut bytes = Vec::new();
        for p in parts {
            bytes.extend_from_slice(p);
        }
        let mut reader = CompressedTrainingDataEntryReader::from_bytes(bytes).unwrap();
        assert!(reader.has_next());
        assert_eq!(rest(&mut reader), entries);
        assert!(!reader.has_next());
    }
    let mut bytes = full.clone();
    bytes.extend_from_slice(&empty);
    bytes.extend_from_slice(&short);
    bytes.extend_from_slice(&full);
    let mut reader = CompressedTrainingDataEntryReader::from_bytes(bytes).unwrap();
    let mut twice = entries.clone();
    twice.extend_from_slice(&entries);
    assert_eq!(rest(&mut reader), twice);
}

#[test]
fn a_file_without_an_entry_has_none() {
    let mut bytes = file_of(&[]);
    bytes.extend_from_slice(&file_of(&[1, 2, 3]));
    let reader = CompressedTrainingDataEntryReader::from_bytes(bytes).unwrap();
    assert!(!reader.has_next());
}

#[test]
fn a_chunk_that_is_taken_raw_is_not_read() {
    let full = write_to_bytes(&sample_chain());
    for first in [file_of(&[]), file_of(&[0; 35])] {
        let mut bytes = first.clone();
        bytes.extend_from_slice(&full);
        let mut reader = CompressedTrainingDataEntryReader::from_bytes(bytes).unwrap();
        assert!(reader.has_next());
        assert_eq!(reader.read_bytes(), first.len() as u64);
        let mut buffer = vec![5];
        assert!(matches!(reader.read_next_chunk_into(&mut buffer), Ok(true)));
        assert_eq!(buffer, full[8..]);
        assert!(!reader.has_next());
        assert!(matches!(reader.read_next_chunk_into(&mut buffer), Ok(false)));
        assert_eq!(buffer, full[8..]);
        assert!(!reader.has_next());
    }
    let mut bytes = full.clone();
    bytes.extend_from_slice(&full);
    let mut reader = CompressedTrainingDataEntryReader::from_bytes(bytes).unwrap();
    let mut buffer = Vec::new();
    assert!(matches!(reader.read_next_chunk_into(&mut buffer), Ok(true)));
    assert!(reader.has_next());
    assert!(matches!(reader.read_next_chunk_into(&mut buffer), Ok(false)));
    assert!(reader.has_next());
    assert_eq!(rest(&mut reader), sample_chain());
}

#[test]
fn a_taken_file_leaves_what_is_at_hand() {
    let full = write_to_bytes(&sample_chain());
    let mut reader = CompressedTrainingDataEntryReader::from_slice(&full).unwrap();
    reader.into_inner().unwrap();
    assert!(reader.has_next());
    assert_eq!(reader.try_next(), Some(sample_chain()[0]));
    let mut bytes = file_of(&[]);
    bytes.extend_from_slice(&full);
    let mut reader = CompressedTrainingDataEntryReader::from_bytes(bytes).unwrap();
    assert!(reader.has_next());
    reader.into_inner().unwrap();
    assert!(!reader.has_next());
    assert_eq!(reader.try_next(), None);
}

#[test]
fn a_bad_chunk_behind_an_empty_one_is_told() {
    let mut bytes = file_of(&[]);
    bytes.push(0);
    let mut reader = CompressedTrainingDataEntryReader::from_bytes(bytes).unwrap();
    assert!(reader.has_next());
    assert_eq!(reader.try_next(), None);
    assert_eq!(reader.read_bytes(), 8);
}

#[test]
fn a_bad_chunk_behind_an_entry_is_told() {
    let mut bytes = write_to_bytes(&sample_chain()[..1]);
    bytes.push(0);
    let mut reader = CompressedTrainingDataEntryReader::from_bytes(bytes).unwrap();
    assert_eq!(reader.try_next(), None);
    assert!(reader.has_next());
}

#[test]
fn a_stream_asks_for_what_it_needs() {
    let bytes = write_to_bytes(&sample_chain());
    let mut stream = EntryStream::default();
    assert_eq!(stream.action(), Action::Load);
    stream.load(bytes[8..].to_vec());
    let mut got = Vec::new();
    while stream.at_hand() {
        assert_eq!(stream.action(), Action::Nothing);
        assert!(stream.has_next());
        got.push(stream.try_next().unwrap());
    }
    assert_eq!(got, sample_chain());
    assert_eq!(stream.action(), Action::Load);
    stream.load(Vec::new());
    assert_eq!(stream.action(), Action::Look);
    stream.look(35);
    assert_eq!(stream.action(), Action::Look);
    stream.look(36);
    assert_eq!(stream.action(), Action::Nothing);
    assert!(stream.has_next() && !stream.at_hand());
    stream.pass();
    assert_eq!(stream.action(), Action::Look);
    stream.look_failed();
    assert!(stream.has_next());
    stream.seek();
    assert_eq!(stream.action(), Action::Load);
    stream.load(Vec::new());
    assert_eq!(stream.action(), Action::Load);
    stream.load(bytes[8..].to_vec());
    assert_eq!(stream.action(), Action::Nothing);
    assert_eq!(stream.try_next().unwrap(), sample_chain()[0]);
    assert!(stream.is_next_entry_continuation());
    stream.finish();
    assert!(!stream.has_next());
    assert_eq!(stream.action(), Action::Nothing);
}
