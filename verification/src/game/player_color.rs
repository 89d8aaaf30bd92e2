//! The two player colors.

use vstd::prelude::*;

verus! {

/// A player color in the game.
#[derive(Debug, Copy, Clone, PartialEq, Eq, Hash, Structural)]
pub enum PlayerColor {
    Red,
    Blue,
}

impl PlayerColor {
    /// The other color.
    pub open spec fn spec_opponent(self) -> PlayerColor {
        match self {
            PlayerColor::Red => PlayerColor::Blue,
            PlayerColor::Blue => PlayerColor::Red,
        }
    }

    /// Fetches the opposing color. Each color's opponent is the other one.
    pub fn opponent(self) -> (r: PlayerColor)
        ensures
            r == self.spec_opponent(),
            r != self,
    {
        match self {
            PlayerColor::Red => PlayerColor::Blue,
            PlayerColor::Blue => PlayerColor::Red,
        }
    }

    /// The one-character notation of the color.
    pub open spec fn spec_char(self) -> char {
        match self {
            PlayerColor::Red => 'R',
            PlayerColor::Blue => 'B',
        }
    }

    /// Converts the color to its one-character notation.
    pub fn to_char(self) -> (r: char)
        ensures
            r == self.spec_char(),
    {
        match self {
            PlayerColor::Red => 'R',
            PlayerColor::Blue => 'B',
        }
    }

    /// The color a one-character notation denotes, either case.
    pub open spec fn spec_from_char(c: char) -> Option<PlayerColor> {
        if c == 'R' || c == 'r' {
            Some(PlayerColor::Red)
        } else if c == 'B' || c == 'b' {
            Some(PlayerColor::Blue)
        } else {
            None
        }
    }

    /// Parses a color from its one-character notation, accepting either case.
    pub fn from_char(c: char) -> (r: Option<PlayerColor>)
        ensures
            r == PlayerColor::spec_from_char(c),
            r == (Some(PlayerColor::Red)) <==> (c == 'R' || c == 'r'),
            r == (Some(PlayerColor::Blue)) <==> (c == 'B' || c == 'b'),
            r is None <==> !(c == 'R' || c == 'r' || c == 'B' || c == 'b'),
    {
        if c == 'R' || c == 'r' {
            Some(PlayerColor::Red)
        } else if c == 'B' || c == 'b' {
            Some(PlayerColor::Blue)
        } else {
            None
        }
    }

    /// The protocol name of the color.
    pub open spec fn spec_name(self) -> Seq<char> {
        match self {
            PlayerColor::Red => "RED"@,
            PlayerColor::Blue => "BLUE"@,
        }
    }

    /// Converts the color to its protocol name.
    pub fn name(self) -> (r: String)
        ensures
            r@ == self.spec_name(),
    {
        match self {
            PlayerColor::Red => String::from_str("RED"),
            PlayerColor::Blue => String::from_str("BLUE"),
        }
    }

    /// The color a protocol name denotes.
    pub open spec fn spec_from_name(v: Seq<char>) -> Option<PlayerColor> {
        if v == "RED"@ {
            Some(PlayerColor::Red)
        } else if v == "BLUE"@ {
            Some(PlayerColor::Blue)
        } else {
            None
        }
    }

    /// Parses a color from its (upper-case) protocol name.
    pub fn from_name(s: &str) -> (r: Option<PlayerColor>)
        ensures
            r == PlayerColor::spec_from_name(s@),
            r == (Some(PlayerColor::Red)) <==> s@ == "RED"@,
            r == (Some(PlayerColor::Blue)) <==> s@ == "BLUE"@,
    {
        proof {
            reveal_strlit("RED");
            reveal_strlit("BLUE");
            assert("RED"@.len() == 3);
            assert("BLUE"@.len() == 4);
        }
        if crate::strings::str_eq(s, "RED") {
            Some(PlayerColor::Red)
        } else if crate::strings::str_eq(s, "BLUE") {
            Some(PlayerColor::Blue)
        } else {
            None
        }
    }
}

} // verus!
