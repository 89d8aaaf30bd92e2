//! A move in the game: skipping a round or placing a piece.

use vstd::prelude::*;
use crate::blokus::color::Color;
use crate::blokus::piece::Piece;

verus! {

/// A move in the game.
#[derive(Debug, Clone, PartialEq, Eq)]
pub enum Move {
    /// A move that skips a round.
    Skip { color: Color },
    /// A move that places an own, not yet placed piece.
    Place { piece: Piece },
}

impl Move {
    /// The color that makes the move.
    pub fn color(&self) -> (r: Color)
        ensures
            r == (match self {
                Move::Skip { color } => *color,
                Move::Place { piece } => piece.color,
            }),
    {
        match self {
            Move::Skip { color } => *color,
            Move::Place { piece } => piece.color,
        }
    }
}

} // verus!
