//! The concrete plugin for the square-grid tile-placement game.

use vstd::prelude::*;
use vstd::string::StringExecFns;
use crate::blokus::game_state::GameState;
use crate::blokus::moves::Move;
use crate::blokus::player::Player;
use crate::blokus::team::Team;
use crate::plugin::{HasOpponent, HasTeam, HasTurn, SCPlugin};

verus! {

impl HasOpponent for Team {
    fn opponent(self) -> Team {
        Team::opponent(self)
    }
}

/// The type family of the square-grid tile-placement game.
#[derive(Debug)]
pub struct SCPlugin2021;

impl SCPlugin for SCPlugin2021 {
    type PlayerColor = Team;
    type Player = Player;
    type GameState = GameState;
    type Move = Move;

    fn protocol_game_type() -> String {
        String::from_str("swc_2021_blokus")
    }
}

impl HasTeam for GameState {
    type Team = Team;

    fn team(&self) -> Team {
        if (self.current_color_index as usize) < self.ordered_colors.len() {
            self.current_color().team()
        } else {
            Team::Neutral
        }
    }
}

impl HasTurn for GameState {
    fn turn(&self) -> u32 {
        self.turn
    }
}

} // verus!
