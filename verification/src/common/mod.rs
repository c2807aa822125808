//! The stored forms of positions, moves and entries.
pub mod arithmetic;
pub mod binpack_error;
pub mod bits;
pub mod chain;
pub mod chain_rules;
pub mod compressed_move;
pub mod compressed_position;
pub mod compressed_training_file_reader;
pub mod compressed_training_file_writer;
pub mod entry;
pub mod entry_rules;
pub mod entry_text;
pub mod frame;
pub mod move_numbers;
pub mod move_rules;
pub mod move_text;
pub mod number_rules;
pub mod position_rules;
pub mod vle;
