//! Metadata about a player.

use vstd::prelude::*;
use crate::game::player_color::PlayerColor;

verus! {

/// Metadata about a player.
#[derive(Debug, Clone, Eq, Hash)]
pub struct Player {
    pub color: PlayerColor,
    pub display_name: String,
}

impl PartialEq for Player {
    fn eq(&self, other: &Player) -> (r: bool) {
        self.color == other.color && self.display_name == other.display_name
    }
}

impl vstd::std_specs::cmp::PartialEqSpecImpl for Player {
    open spec fn obeys_eq_spec() -> bool {
        true
    }

    open spec fn eq_spec(&self, other: &Player) -> bool {
        self.color == other.color && self.display_name@ == other.display_name@
    }
}

} // verus!
