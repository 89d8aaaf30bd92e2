//! A color in the game.

use vstd::prelude::*;
use vstd::string::StringExecFns;
use crate::blokus::team::Team;

verus! {

/// A color in the game. Two colors play for each team.
#[derive(Debug, Copy, Clone, PartialEq, Eq, Hash, Structural)]
pub enum Color {
    Neutral,
    Blue,
    Yellow,
    Red,
    Green,
}

impl Color {
    /// Unwraps an option, mapping a missing value to [`Color::Neutral`].
    pub fn from_option(option: Option<Color>) -> (r: Color)
        ensures
            r == (match option {
                Some(c) => c,
                None => Color::Neutral,
            }),
    {
        match option {
            Some(c) => c,
            None => Color::Neutral,
        }
    }

    /// The color's associated team.
    pub open spec fn spec_team(self) -> Team {
        match self {
            Color::Red | Color::Blue => Team::One,
            Color::Yellow | Color::Green => Team::Two,
            Color::Neutral => Team::Neutral,
        }
    }

    /// Fetches the color's associated team.
    pub fn team(self) -> (r: Team)
        ensures
            r == self.spec_team(),
    {
        match self {
            Color::Red | Color::Blue => Team::One,
            Color::Yellow | Color::Green => Team::Two,
            Color::Neutral => Team::Neutral,
        }
    }

    /// Converts the color into an option, mapping [`Color::Neutral`] to `None`.
    pub fn to_option(self) -> (r: Option<Color>)
        ensures
            r == (if self == Color::Neutral {
                None::<Color>
            } else {
                Some(self)
            }),
    {
        match self {
            Color::Neutral => None,
            c => Some(c),
        }
    }

    /// The protocol name of the color.
    pub open spec fn spec_name(self) -> Seq<char> {
        match self {
            Color::Neutral => "NONE"@,
            Color::Blue => "BLUE"@,
            Color::Yellow => "YELLOW"@,
            Color::Red => "RED"@,
            Color::Green => "GREEN"@,
        }
    }

    /// Converts the color to its protocol name.
    pub fn name(self) -> (r: String)
        ensures
            r@ == self.spec_name(),
    {
        match self {
            Color::Neutral => String::from_str("NONE"),
            Color::Blue => String::from_str("BLUE"),
            Color::Yellow => String::from_str("YELLOW"),
            Color::Red => String::from_str("RED"),
            Color::Green => String::from_str("GREEN"),
        }
    }

    /// Parses a color from its (upper-case) protocol name; the name of
    /// [`Color::Neutral`] is not accepted, as in the wire format.
    pub fn from_name(s: &str) -> (r: Option<Color>)
        ensures
            forall|c: Color| c != Color::Neutral ==> (r == Some(c) <==> s@ == c.spec_name()),
            r != Some(Color::Neutral),
    {
        proof {
            reveal_strlit("BLUE");
            reveal_strlit("YELLOW");
            reveal_strlit("RED");
            reveal_strlit("GREEN");
            assert("BLUE"@.len() == 4 && "YELLOW"@.len() == 6 && "RED"@.len() == 3
                && "GREEN"@.len() == 5);
        }
        if crate::strings::str_eq(s, "BLUE") {
            Some(Color::Blue)
        } else if crate::strings::str_eq(s, "YELLOW") {
            Some(Color::Yellow)
        } else if crate::strings::str_eq(s, "RED") {
            Some(Color::Red)
        } else if crate::strings::str_eq(s, "GREEN") {
            Some(Color::Green)
        } else {
            None
        }
    }
}

impl Default for Color {
    fn default() -> (r: Color)
        ensures
            r == Color::Neutral,
    {
        Color::Neutral
    }
}

} // verus!
