//! Chess rules: pieces, squares, moves, attacks and positions.
pub mod attacks;
pub mod bitboard;
pub mod castling_rights;
pub mod chess_move;
pub mod color;
pub mod coords;
pub mod fen;
pub mod fen_rules;
pub mod piece;
pub mod piecetype;
pub mod position;
pub mod rules;
pub mod text;
