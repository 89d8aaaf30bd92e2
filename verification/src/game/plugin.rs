//! The concrete plugin for the hexagonal tile-placement game.

use vstd::prelude::*;
use vstd::string::StringExecFns;
use crate::game::game_state::GameState;
use crate::game::moves::Move;
use crate::game::player::Player;
use crate::game::player_color::PlayerColor;
use crate::plugin::{HasOpponent, HasPlayerColor, HasTurn, SCPlugin};

verus! {

impl HasOpponent for PlayerColor {
    fn opponent(self) -> PlayerColor {
        PlayerColor::opponent(self)
    }
}

/// The type family of the hexagonal tile-placement game.
#[derive(Debug)]
pub struct SCPlugin2020;

impl SCPlugin for SCPlugin2020 {
    type PlayerColor = PlayerColor;
    type Player = Player;
    type GameState = GameState;
    type Move = Move;

    fn protocol_game_type() -> String {
        String::from_str("swc_2020_hive")
    }
}

impl HasPlayerColor for GameState {
    type PlayerColor = PlayerColor;

    fn player_color(&self) -> PlayerColor {
        self.current_player_color
    }
}

impl HasTurn for GameState {
    fn turn(&self) -> u32 {
        self.turn
    }
}

} // verus!
