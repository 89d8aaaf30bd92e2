//! Metadata about a player.

use vstd::prelude::*;
use crate::blokus::team::Team;

verus! {

/// Metadata about a player.
#[derive(Debug, Clone, Eq, Hash)]
pub struct Player {
    pub team: Team,
    pub display_name: String,
}

impl PartialEq for Player {
    fn eq(&self, other: &Player) -> bool {
        self.team == other.team && self.display_name == other.display_name
    }
}

impl vstd::std_specs::cmp::PartialEqSpecImpl for Player {
    open spec fn obeys_eq_spec() -> bool {
        true
    }

    open spec fn eq_spec(&self, other: &Player) -> bool {
        self.team == other.team && self.display_name@ == other.display_name@
    }
}

} // verus!
