//! Writing of binpacks.
pub mod bitwriter;
pub mod compressed_writer;
pub mod entry_packer;
pub mod move_score_list;
pub mod read_back;
pub mod writer_rules;
