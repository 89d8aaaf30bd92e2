//! The "type family" abstraction tying a year's game types together, and
//! a mock plugin for testing.

use vstd::prelude::*;
use vstd::string::StringExecFns;
use crate::error::SCError;

verus! {

/// Indicates that every variant of this type has an "opponent".
pub trait HasOpponent where Self: Sized {
    /// Fetches the opponent of this variant.
    fn opponent(self) -> Self;
}

/// A "type family" trait that defines types which represent various
/// parts of a game.
pub trait SCPlugin {
    type PlayerColor;
    type Player;
    type GameState;
    type Move;

    /// Fetches the `gameType` used during the protocol handshake.
    fn protocol_game_type() -> String;
}

/// Indicates that the value has an "associated" player color. The
/// plugin-specific game state should return the current player color.
pub trait HasPlayerColor {
    type PlayerColor;

    /// Fetches the associated player color.
    fn player_color(&self) -> Self::PlayerColor;
}

/// Indicates that the value has an "associated" team.
pub trait HasTeam {
    type Team;

    /// Fetches the associated team.
    fn team(&self) -> Self::Team;
}

/// Indicates that the value has a turn.
pub trait HasTurn {
    /// Fetches the turn.
    fn turn(&self) -> u32;
}

/// A mock implementation of a plugin for testing.
#[derive(Debug)]
pub struct MockPlugin;

/// A mock player color for testing.
#[derive(Clone, Copy, Debug, PartialEq, Eq, Structural)]
pub enum MockPlayerColor {
    Red,
    Blue,
}

/// A mock team for testing.
#[derive(Clone, Copy, Debug, PartialEq, Eq, Structural)]
pub enum MockTeam {
    Red,
    Blue,
}

/// A mock player for testing.
#[derive(Clone, Debug, PartialEq, Eq)]
pub struct MockPlayer;

/// A mock game state for testing.
#[derive(Clone, Debug, PartialEq, Eq, Structural)]
pub struct MockGameState {
    pub player_color: MockPlayerColor,
    pub turn: u32,
}

/// A mock move for testing.
#[derive(Clone, Debug, PartialEq, Eq)]
pub struct MockMove;

impl SCPlugin for MockPlugin {
    type PlayerColor = MockPlayerColor;
    type Player = MockPlayer;
    type GameState = MockGameState;
    type Move = MockMove;

    fn protocol_game_type() -> String {
        String::from_str("mock")
    }
}

impl MockPlayerColor {
    /// The opposing mock color.
    pub fn opponent(self) -> (r: MockPlayerColor)
        ensures
            r != self,
    {
        match self {
            MockPlayerColor::Red => MockPlayerColor::Blue,
            MockPlayerColor::Blue => MockPlayerColor::Red,
        }
    }

    /// Parses a mock color from its protocol name.
    pub fn from_name(s: &str) -> (r: Result<MockPlayerColor, SCError>)
        ensures
            r matches Ok(c) ==> (c == MockPlayerColor::Red <==> s@ == "RED"@),
    {
        proof {
            reveal_strlit("RED");
            reveal_strlit("BLUE");
            assert("RED"@.len() == 3 && "BLUE"@.len() == 4);
        }
        if crate::strings::str_eq(s, "RED") {
            Ok(MockPlayerColor::Red)
        } else if crate::strings::str_eq(s, "BLUE") {
            Ok(MockPlayerColor::Blue)
        } else {
            Err(SCError::custom("invalid mock player color"))
        }
    }
}

impl HasOpponent for MockPlayerColor {
    fn opponent(self) -> MockPlayerColor {
        MockPlayerColor::opponent(self)
    }
}

impl HasTurn for MockGameState {
    fn turn(&self) -> u32 {
        self.turn
    }
}

impl HasPlayerColor for MockGameState {
    type PlayerColor = MockPlayerColor;

    fn player_color(&self) -> MockPlayerColor {
        self.player_color
    }
}

} // verus!
