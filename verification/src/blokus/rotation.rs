//! The rotations a piece can be placed in.

use vstd::prelude::*;
use vstd::string::StringExecFns;

verus! {

/// A rotation of a piece shape.
#[derive(Debug, Copy, Clone, PartialEq, Eq, Hash, Structural)]
pub enum Rotation {
    Identity,
    Right,
    Mirror,
    Left,
}

impl Rotation {
    /// The wire encoding of the rotation as a small number.
    pub open spec fn spec_code(self) -> int {
        match self {
            Rotation::Identity => 0,
            Rotation::Right => 1,
            Rotation::Mirror => 2,
            Rotation::Left => 3,
        }
    }

    /// Converts the rotation to its numeric wire encoding.
    pub fn code(self) -> (r: i32)
        ensures
            r == self.spec_code(),
    {
        match self {
            Rotation::Identity => 0,
            Rotation::Right => 1,
            Rotation::Mirror => 2,
            Rotation::Left => 3,
        }
    }

    /// Parses a rotation from its numeric wire encoding.
    pub fn from_code(n: i32) -> (r: Option<Rotation>)
        ensures
            forall|t: Rotation| r == Some(t) <==> n == t.spec_code(),
    {
        if n == 0 {
            Some(Rotation::Identity)
        } else if n == 1 {
            Some(Rotation::Right)
        } else if n == 2 {
            Some(Rotation::Mirror)
        } else if n == 3 {
            Some(Rotation::Left)
        } else {
            None
        }
    }

    /// The protocol name of the rotation.
    pub open spec fn spec_name(self) -> Seq<char> {
        match self {
            Rotation::Identity => "NONE"@,
            Rotation::Right => "RIGHT"@,
            Rotation::Mirror => "MIRROR"@,
            Rotation::Left => "LEFT"@,
        }
    }

    /// Converts the rotation to its protocol name.
    pub fn name(self) -> (r: String)
        ensures
            r@ == self.spec_name(),
    {
        match self {
            Rotation::Identity => String::from_str("NONE"),
            Rotation::Right => String::from_str("RIGHT"),
            Rotation::Mirror => String::from_str("MIRROR"),
            Rotation::Left => String::from_str("LEFT"),
        }
    }

    /// Parses a rotation from its (upper-case) protocol name.
    pub fn from_name(s: &str) -> (r: Option<Rotation>)
        ensures
            forall|t: Rotation| r == Some(t) <==> s@ == t.spec_name(),
    {
        proof {
            reveal_strlit("NONE");
            reveal_strlit("RIGHT");
            reveal_strlit("MIRROR");
            reveal_strlit("LEFT");
            assert("NONE"@.len() == 4 && "RIGHT"@.len() == 5 && "MIRROR"@.len() == 6
                && "LEFT"@.len() == 4);
            assert("NONE"@[0] == 'N' && "LEFT"@[0] == 'L');
        }
        if crate::strings::str_eq(s, "NONE") {
            Some(Rotation::Identity)
        } else if crate::strings::str_eq(s, "RIGHT") {
            Some(Rotation::Right)
        } else if crate::strings::str_eq(s, "MIRROR") {
            Some(Rotation::Mirror)
        } else if crate::strings::str_eq(s, "LEFT") {
            Some(Rotation::Left)
        } else {
            None
        }
    }
}

} // verus!
