//! What can go wrong with a binpack file.
use vstd::prelude::*;

verus! {

/// A failed read.
#[derive(Debug, Clone, Copy, PartialEq, Eq, Structural)]
pub enum IoError {
    /// The file ends before the bytes that were asked for.
    UnexpectedEof,
}

/// A chunk that cannot be read.
#[derive(Debug, Clone, Copy, PartialEq, Eq, Structural)]
pub enum BinpackError {
    Io(IoError),
    /// The header of the chunk does not begin with "BINP".
    InvalidMagic,
}

} // verus!
