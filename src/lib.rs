use vstd::prelude::*;

pub mod board;
pub mod castling;
pub mod game;
pub mod piece;
pub mod square;
pub mod text;

pub use board::Board;
pub use castling::CastlingAvailability;
pub use game::{Game, Move, PieceMovement};
pub use piece::{Color, Kind, Piece};
pub use square::Square;

verus! {

/// Failures reported by the decoders and by the move engine.
#[derive(Clone, Copy, Debug, PartialEq, Eq, Structural)]
pub enum ChessError {
    /// A textual or binary form could not be decoded.
    InvalidEncoding,
    /// A move (or its undo record) could not be dispatched.
    InvalidMove,
}

/// Always answers true; a host calls it to check that the library is linked.
pub fn test_fn() -> (r: bool)
    ensures
        r,
{
    true
}

} // verus!
