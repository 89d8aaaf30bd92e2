//! Moves and the reasons a move can be rejected.

use vstd::prelude::*;
use vstd::string::StringExecFns;
use crate::game::field::Field;
use crate::game::piece::Piece;
use crate::util::AxialCoords;

verus! {

/// A transition between two game states: placing an undeployed piece or
/// relocating an already-placed one.
#[derive(Debug, Clone, PartialEq, Eq)]
pub enum Move {
    SetMove { piece: Piece, destination: Field },
    DragMove { start: Field, destination: Field },
}

impl Move {
    /// The target cell of the move.
    pub open spec fn dest_coords(self) -> AxialCoords {
        match self {
            Move::SetMove { destination, .. } => destination.acoords(),
            Move::DragMove { destination, .. } => destination.acoords(),
        }
    }
}

/// The reason a candidate move is rejected.
#[derive(Debug, Copy, Clone, PartialEq, Eq, Structural)]
pub enum MoveViolation {
    /// The target cell is not on the board.
    DestinationOutOfBounds,
    /// The target cell is permanently blocked terrain.
    DestinationObstructed,
    /// A second placement must touch an opponent's piece.
    NotNextToOpponent,
    /// The Bee has to be placed in the fourth round or earlier.
    BeeRequired,
    /// The piece is not among the color's undeployed pieces.
    PieceNotUndeployed,
    /// A placement must touch a piece of the own color.
    NotNextToOwn,
    /// A placement must not touch a piece of the opposing color.
    NextToOpponent,
    /// The Bee has to be placed before committing a drag move.
    BeeNotPlaced,
    /// The start cell is not on the board.
    StartOutOfBounds,
    /// The start cell holds no piece to move.
    NoPieceToMove,
    /// The top piece at the start cell belongs to the opponent.
    OpponentPiece,
    /// Start and destination coincide.
    SamePosition,
    /// Only beetles may move onto occupied cells.
    OnlyBeetlesClimb,
    /// Removing the piece would disconnect the swarm.
    DisconnectsSwarm,
    /// The two cells are not adjacent.
    NotAdjacent,
    /// The piece cannot slide between the two cells.
    CannotSlide,
    /// A beetle has to move along the swarm.
    BeetleMustTouchSwarm,
    /// A grasshopper can only move along straight lines.
    NotInLine,
    /// A grasshopper must not move to a neighbor.
    JumpTooShort,
    /// A grasshopper cannot move over empty fields.
    JumpOverEmpty,
    /// No path along the swarm's boundary was found for the ant.
    NoAntPath,
    /// No three-step path was found for the spider.
    NoSpiderPath,
}

impl MoveViolation {
    /// A human-readable reason for the rejection.
    pub fn message(self) -> String {
        match self {
            MoveViolation::DestinationOutOfBounds => String::from_str("Move destination is out of bounds"),
            MoveViolation::DestinationObstructed => String::from_str("Move destination is obstructed"),
            MoveViolation::NotNextToOpponent => String::from_str("Piece has to be placed next to an opponent's piece"),
            MoveViolation::BeeRequired => String::from_str("Bee has to be placed in the fourth round or earlier"),
            MoveViolation::PieceNotUndeployed => String::from_str("Piece is not undeployed"),
            MoveViolation::NotNextToOwn => String::from_str("Piece is not placed next to an own piece"),
            MoveViolation::NextToOpponent => String::from_str("Piece must not be placed next to an opponent's piece"),
            MoveViolation::BeeNotPlaced => String::from_str("Bee has to be placed before committing a drag move"),
            MoveViolation::StartOutOfBounds => String::from_str("Move start is out of bounds"),
            MoveViolation::NoPieceToMove => String::from_str("No piece to move"),
            MoveViolation::OpponentPiece => String::from_str("Cannot move opponent's piece"),
            MoveViolation::SamePosition => String::from_str("Cannot move when start and destination are equal"),
            MoveViolation::OnlyBeetlesClimb => String::from_str("Only beetles can climb other pieces"),
            MoveViolation::DisconnectsSwarm => String::from_str("Drag move would disconnect the swarm"),
            MoveViolation::NotAdjacent => String::from_str("Coords are not adjacent to each other"),
            MoveViolation::CannotSlide => String::from_str("Cannot move between the fields"),
            MoveViolation::BeetleMustTouchSwarm => String::from_str("Beetle has to move along swarm"),
            MoveViolation::NotInLine => String::from_str("Grasshopper can only move along straight lines"),
            MoveViolation::JumpTooShort => String::from_str("Grasshopper must not move to a neighbor"),
            MoveViolation::JumpOverEmpty => String::from_str("Grasshopper cannot move over empty fields"),
            MoveViolation::NoAntPath => String::from_str("Could not find path for ant"),
            MoveViolation::NoSpiderPath => String::from_str("No 3-step path found for spider move"),
        }
    }
}

} // verus!
