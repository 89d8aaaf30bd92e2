//! The rule structures for the square-grid tile-placement game: colors
//! and teams, the 20x20 board, polyomino piece shapes and the game state.

pub mod board;
pub mod color;
pub mod colors;
pub mod coordinates;
pub mod corner;
pub mod field;
pub mod fields;
pub mod game_state;
pub mod moves;
pub mod piece;
pub mod piece_shape;
pub mod piece_shapes;
pub mod player;
pub mod plugin;
pub mod rotation;
pub mod team;
pub mod vec2;
