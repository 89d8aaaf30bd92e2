//! A piece: a type owned by a color.

use vstd::prelude::*;
use crate::game::piece_type::PieceType;
use crate::game::player_color::PlayerColor;

verus! {

/// A game piece.
#[derive(Debug, Copy, Clone, PartialEq, Eq, Hash, Structural)]
pub struct Piece {
    pub owner: PlayerColor,
    pub piece_type: PieceType,
}

impl Piece {
    /// Creates a new piece.
    pub fn new(owner: PlayerColor, piece_type: PieceType) -> (r: Self)
        ensures
            r == (Piece { owner, piece_type }),
    {
        Self { owner, piece_type }
    }
}

} // verus!
