//! A player's team.

use vstd::prelude::*;
use vstd::string::StringExecFns;

verus! {

/// A player's team.
#[derive(Debug, Copy, Clone, PartialEq, Eq, Hash, Structural)]
pub enum Team {
    Neutral,
    One,
    Two,
}

impl Team {
    /// Unwraps an option, mapping a missing value to [`Team::Neutral`].
    pub fn from_option(option: Option<Team>) -> (r: Team)
        ensures
            r == (match option {
                Some(t) => t,
                None => Team::Neutral,
            }),
    {
        match option {
            Some(t) => t,
            None => Team::Neutral,
        }
    }

    /// Converts the team into an option, mapping [`Team::Neutral`] to `None`.
    pub fn to_option(self) -> (r: Option<Team>)
        ensures
            r == (if self == Team::Neutral {
                None::<Team>
            } else {
                Some(self)
            }),
    {
        match self {
            Team::Neutral => None,
            t => Some(t),
        }
    }

    /// The opposing team; [`Team::Neutral`] opposes itself.
    pub open spec fn spec_opponent(self) -> Team {
        match self {
            Team::Neutral => Team::Neutral,
            Team::One => Team::Two,
            Team::Two => Team::One,
        }
    }

    /// Fetches the team's opponent team.
    pub fn opponent(self) -> (r: Team)
        ensures
            r == self.spec_opponent(),
    {
        match self {
            Team::Neutral => Team::Neutral,
            Team::One => Team::Two,
            Team::Two => Team::One,
        }
    }

    /// The protocol name of the team.
    pub open spec fn spec_name(self) -> Seq<char> {
        match self {
            Team::Neutral => "NONE"@,
            Team::One => "ONE"@,
            Team::Two => "TWO"@,
        }
    }

    /// Converts the team to its protocol name.
    pub fn name(self) -> (r: String)
        ensures
            r@ == self.spec_name(),
    {
        match self {
            Team::Neutral => String::from_str("NONE"),
            Team::One => String::from_str("ONE"),
            Team::Two => String::from_str("TWO"),
        }
    }

    /// Parses a team from its (upper-case) protocol name.
    pub fn from_name(s: &str) -> (r: Option<Team>)
        ensures
            forall|t: Team| r == Some(t) <==> s@ == t.spec_name(),
    {
        proof {
            reveal_strlit("NONE");
            reveal_strlit("ONE");
            reveal_strlit("TWO");
            assert("NONE"@.len() == 4 && "ONE"@.len() == 3 && "TWO"@.len() == 3);
            assert("ONE"@[0] == 'O' && "TWO"@[0] == 'T');
        }
        if crate::strings::str_eq(s, "NONE") {
            Some(Team::Neutral)
        } else if crate::strings::str_eq(s, "ONE") {
            Some(Team::One)
        } else if crate::strings::str_eq(s, "TWO") {
            Some(Team::Two)
        } else {
            None
        }
    }
}

impl Default for Team {
    fn default() -> (r: Team)
        ensures
            r == Team::Neutral,
    {
        Team::Neutral
    }
}

} // verus!
