//! Reading of binpacks.
pub mod bitreader;
pub mod chunk_reader;
pub mod compressed_reader;
pub mod entry_stream;
pub mod laws;
pub mod move_score_list_reader;
pub mod stream_rules;
