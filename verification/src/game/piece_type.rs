//! The five piece types.

use vstd::prelude::*;

verus! {

/// A game piece type.
#[derive(Debug, Copy, Clone, PartialEq, Eq, Hash, Structural)]
pub enum PieceType {
    Ant,
    Bee,
    Beetle,
    Grasshopper,
    Spider,
}

impl PieceType {
    /// The one-character notation of the piece type.
    pub open spec fn spec_char(self) -> char {
        match self {
            PieceType::Ant => 'A',
            PieceType::Bee => 'B',
            PieceType::Beetle => 'T',
            PieceType::Grasshopper => 'G',
            PieceType::Spider => 'S',
        }
    }

    /// Converts the piece type to its one-character notation.
    pub fn to_char(self) -> (r: char)
        ensures
            r == self.spec_char(),
    {
        match self {
            PieceType::Ant => 'A',
            PieceType::Bee => 'B',
            PieceType::Beetle => 'T',
            PieceType::Grasshopper => 'G',
            PieceType::Spider => 'S',
        }
    }

    /// The piece type a one-character notation denotes, either case.
    pub open spec fn spec_from_char(c: char) -> Option<PieceType> {
        if c == 'A' || c == 'a' {
            Some(PieceType::Ant)
        } else if c == 'B' || c == 'b' {
            Some(PieceType::Bee)
        } else if c == 'T' || c == 't' {
            Some(PieceType::Beetle)
        } else if c == 'G' || c == 'g' {
            Some(PieceType::Grasshopper)
        } else if c == 'S' || c == 's' {
            Some(PieceType::Spider)
        } else {
            None
        }
    }

    /// Parses a piece type from its one-character notation, either case.
    pub fn from_char(c: char) -> (r: Option<PieceType>)
        ensures
            r == PieceType::spec_from_char(c),
            forall|t: PieceType| r == Some(t) <==> (c == t.spec_char() || c == t.spec_lower_char()),
    {
        if c == 'A' || c == 'a' {
            Some(PieceType::Ant)
        } else if c == 'B' || c == 'b' {
            Some(PieceType::Bee)
        } else if c == 'T' || c == 't' {
            Some(PieceType::Beetle)
        } else if c == 'G' || c == 'g' {
            Some(PieceType::Grasshopper)
        } else if c == 'S' || c == 's' {
            Some(PieceType::Spider)
        } else {
            None
        }
    }

    /// The lower-case one-character notation.
    pub open spec fn spec_lower_char(self) -> char {
        match self {
            PieceType::Ant => 'a',
            PieceType::Bee => 'b',
            PieceType::Beetle => 't',
            PieceType::Grasshopper => 'g',
            PieceType::Spider => 's',
        }
    }

    /// The protocol name of the piece type.
    pub open spec fn spec_name(self) -> Seq<char> {
        match self {
            PieceType::Ant => "ANT"@,
            PieceType::Bee => "BEE"@,
            PieceType::Beetle => "BEETLE"@,
            PieceType::Grasshopper => "GRASSHOPPER"@,
            PieceType::Spider => "SPIDER"@,
        }
    }

    /// Converts the piece type to its protocol name.
    pub fn name(self) -> (r: String)
        ensures
            r@ == self.spec_name(),
    {
        match self {
            PieceType::Ant => String::from_str("ANT"),
            PieceType::Bee => String::from_str("BEE"),
            PieceType::Beetle => String::from_str("BEETLE"),
            PieceType::Grasshopper => String::from_str("GRASSHOPPER"),
            PieceType::Spider => String::from_str("SPIDER"),
        }
    }

    /// The piece type a protocol name denotes.
    pub open spec fn spec_from_name(v: Seq<char>) -> Option<PieceType> {
        if v == "ANT"@ {
            Some(PieceType::Ant)
        } else if v == "BEE"@ {
            Some(PieceType::Bee)
        } else if v == "BEETLE"@ {
            Some(PieceType::Beetle)
        } else if v == "GRASSHOPPER"@ {
            Some(PieceType::Grasshopper)
        } else if v == "SPIDER"@ {
            Some(PieceType::Spider)
        } else {
            None
        }
    }

    /// Parses a piece type from its (upper-case) protocol name.
    pub fn from_name(s: &str) -> (r: Option<PieceType>)
        ensures
            r == PieceType::spec_from_name(s@),
            forall|t: PieceType| r == Some(t) <==> s@ == t.spec_name(),
    {
        proof {
            reveal_strlit("ANT");
            reveal_strlit("BEE");
            reveal_strlit("BEETLE");
            reveal_strlit("GRASSHOPPER");
            reveal_strlit("SPIDER");
            assert("ANT"@.len() == 3 && "BEE"@.len() == 3 && "BEETLE"@.len() == 6
                && "GRASSHOPPER"@.len() == 11 && "SPIDER"@.len() == 6);
            assert("ANT"@[0] == 'A' && "BEE"@[0] == 'B' && "BEETLE"@[0] == 'B'
                && "SPIDER"@[0] == 'S');
            assert("BEE"@[2] == 'E' && "BEETLE"@[2] == 'E');
        }
        if crate::strings::str_eq(s, "ANT") {
            Some(PieceType::Ant)
        } else if crate::strings::str_eq(s, "BEE") {
            Some(PieceType::Bee)
        } else if crate::strings::str_eq(s, "BEETLE") {
            Some(PieceType::Beetle)
        } else if crate::strings::str_eq(s, "GRASSHOPPER") {
            Some(PieceType::Grasshopper)
        } else if crate::strings::str_eq(s, "SPIDER") {
            Some(PieceType::Spider)
        } else {
            None
        }
    }
}

} // verus!
