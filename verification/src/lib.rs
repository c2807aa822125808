//! Reading and writing of binpacks: chess training data, compressed.
pub mod chess;
pub mod common;
pub mod reader;
pub mod writer;

pub use common::entry::TrainingDataEntry;
pub use reader::compressed_reader::{CompressedReaderError, CompressedTrainingDataEntryReader};
pub use writer::compressed_writer::{CompressedTrainingDataEntryWriter, CompressedWriterError};
