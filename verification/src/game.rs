//! The rule engine for the hexagonal tile-placement game: coordinates come
//! from [`crate::util`], while this module owns fields, the board, move
//! validation and move enumeration.

pub mod board;
pub mod constants;
pub mod field;
pub mod fields;
pub mod game_state;
pub mod grid;
pub mod moves;
pub mod paths;
pub mod piece;
pub mod piece_type;
pub mod pieces;
pub mod plugin;
pub mod protocol;
pub mod player;
pub mod player_color;
