//! The 20x20 game board.

use vstd::prelude::*;
use crate::blokus::color::Color;
use crate::blokus::corner::Corner;
use crate::blokus::field::Field;
use crate::blokus::fields::Fields;
use crate::blokus::piece::Piece;
use crate::blokus::vec2::Vec2;

verus! {

/// The side length of the square board.
pub const BOARD_SIZE: usize = 20;

/// The game board is a 20x20 grid of fields with colors.
#[derive(Debug, Clone, PartialEq, Eq)]
pub struct Board {
    pub fields: Fields,
}

impl Board {
    /// The color recorded at a position: the first matching field's
    /// content, or none.
    pub open spec fn spec_get(self, position: Vec2) -> Color {
        if exists|i: int| 0 <= i < self.fields.fields@.len()
            && (#[trigger] self.fields.fields@[i]).spec_position() == position {
            let i = choose|i: int| 0 <= i < self.fields.fields@.len()
                && (#[trigger] self.fields.fields@[i]).spec_position() == position
                && forall|j: int| 0 <= j < i
                    ==> (#[trigger] self.fields.fields@[j]).spec_position() != position;
            self.fields.fields@[i].content
        } else {
            Color::Neutral
        }
    }

    /// Creates an empty board.
    pub fn new() -> (r: Self)
        ensures
            r.fields.fields@.len() == 0,
    {
        Self { fields: Fields::new() }
    }

    /// Creates a new board from the given fields.
    pub fn from_fields(fields: Fields) -> (r: Self)
        ensures
            r.fields == fields,
    {
        Self { fields }
    }

    /// Fetches the number of occupied fields.
    pub fn count_obstructed(&self) -> (r: usize)
        ensures
            r <= self.fields.fields@.len(),
    {
        let mut count: usize = 0;
        let mut i: usize = 0;
        while i < self.fields.fields.len()
            invariant
                i <= self.fields.fields@.len(),
                count <= i,
            decreases self.fields.fields@.len() - i,
        {
            if !(self.fields.fields[i].content == Color::Neutral) {
                count += 1;
            }
            i += 1;
        }
        count
    }

    /// Checks whether the given coordinates are in the board's bounds.
    pub fn is_in_bounds(coordinates: Vec2) -> (r: bool)
        ensures
            r == (0 <= coordinates.x < BOARD_SIZE && 0 <= coordinates.y < BOARD_SIZE),
    {
        coordinates.x >= 0 && coordinates.y >= 0 && coordinates.x < 20 && coordinates.y < 20
    }

    /// Fetches the position of a corner.
    pub fn corner_position(corner: Corner) -> (r: Vec2)
        ensures
            r == (match corner {
                Corner::TopLeft => Vec2 { x: 0, y: 0 },
                Corner::BottomLeft => Vec2 { x: 0, y: 19 },
                Corner::TopRight => Vec2 { x: 19, y: 0 },
                Corner::BottomRight => Vec2 { x: 19, y: 19 },
            }),
    {
        match corner {
            Corner::TopLeft => Vec2::new(0, 0),
            Corner::BottomLeft => Vec2::new(0, 19),
            Corner::TopRight => Vec2::new(19, 0),
            Corner::BottomRight => Vec2::new(19, 19),
        }
    }

    /// Fetches the board's four corner positions.
    pub fn corner_positions() -> (r: Vec<Vec2>)
        ensures
            r@.len() == 4,
            forall|k: int| 0 <= k < 4 ==> exists|c: Corner| #[trigger] r@[k]
                == Self::spec_corner_position(c),
    {
        let r = vec![
            Self::corner_position(Corner::TopLeft),
            Self::corner_position(Corner::TopRight),
            Self::corner_position(Corner::BottomLeft),
            Self::corner_position(Corner::BottomRight),
        ];
        proof {
            assert forall|k: int| 0 <= k < 4 implies exists|c: Corner| #[trigger] r@[k]
                == Self::spec_corner_position(c) by {
                if k == 0 {
                    assert(r@[k] == Self::spec_corner_position(Corner::TopLeft));
                } else if k == 1 {
                    assert(r@[k] == Self::spec_corner_position(Corner::TopRight));
                } else if k == 2 {
                    assert(r@[k] == Self::spec_corner_position(Corner::BottomLeft));
                } else {
                    assert(r@[k] == Self::spec_corner_position(Corner::BottomRight));
                }
            }
        }
        r
    }

    /// The position of a corner, as a spec value.
    pub open spec fn spec_corner_position(corner: Corner) -> Vec2 {
        match corner {
            Corner::TopLeft => Vec2 { x: 0, y: 0 },
            Corner::BottomLeft => Vec2 { x: 0, y: 19 },
            Corner::TopRight => Vec2 { x: 19, y: 0 },
            Corner::BottomRight => Vec2 { x: 19, y: 19 },
        }
    }

    /// Aligns a bounding-box area to a corner.
    pub fn align(area: Vec2, corner: Corner) -> (r: Vec2)
        requires
            0 <= area.x < BOARD_SIZE,
            0 <= area.y < BOARD_SIZE,
        ensures
            r == (match corner {
                Corner::TopLeft => Vec2 { x: 0, y: 0 },
                Corner::TopRight => Vec2 { x: (19 - area.x) as i32, y: 0 },
                Corner::BottomLeft => Vec2 { x: 0, y: (19 - area.y) as i32 },
                Corner::BottomRight => Vec2 { x: (19 - area.x) as i32, y: (19 - area.y) as i32 },
            }),
    {
        let position = Self::corner_position(corner);
        match corner {
            Corner::TopLeft => position,
            Corner::TopRight => Vec2::new(position.x - area.x, position.y),
            Corner::BottomLeft => Vec2::new(position.x, position.y - area.y),
            Corner::BottomRight => Vec2::new(position.x - area.x, position.y - area.y),
        }
    }

    /// Checks whether a position is one of the four corners.
    pub fn is_on_corner(position: Vec2) -> (r: bool)
        ensures
            r == exists|c: Corner| position == Self::spec_corner_position(c),
    {
        let r = (position.x == 0 && position.y == 0) || (position.x == 19 && position.y == 0)
            || (position.x == 0 && position.y == 19) || (position.x == 19 && position.y == 19);
        proof {
            if r {
                if position.x == 0 && position.y == 0 {
                    assert(position == Self::spec_corner_position(Corner::TopLeft));
                } else if position.x == 19 && position.y == 0 {
                    assert(position == Self::spec_corner_position(Corner::TopRight));
                } else if position.x == 0 && position.y == 19 {
                    assert(position == Self::spec_corner_position(Corner::BottomLeft));
                } else {
                    assert(position == Self::spec_corner_position(Corner::BottomRight));
                }
            } else {
                assert forall|c: Corner| position != Self::spec_corner_position(c) by {}
            }
        }
        r
    }

    /// Fetches the color at the given position; unset cells read as none.
    pub fn get(&self, position: Vec2) -> (r: Color)
        ensures
            r == self.spec_get(position),
    {
        let mut i: usize = 0;
        while i < self.fields.fields.len()
            invariant
                i <= self.fields.fields@.len(),
                forall|k: int| 0 <= k < i
                    ==> (#[trigger] self.fields.fields@[k]).spec_position() != position,
            decreases self.fields.fields@.len() - i,
        {
            let f = &self.fields.fields[i];
            if f.x == position.x && f.y == position.y {
                proof {
                    assert(self.fields.fields@[i as int].spec_position() == position);
                }
                return f.content;
            }
            i += 1;
        }
        Color::Neutral
    }

    /// Places the color at the given position, overwriting an existing
    /// field or appending a new one.
    pub fn set(&mut self, position: Vec2, color: Color)
        ensures
            final(self).spec_get(position) == color || final(self).fields.fields@.len()
                >= old(self).fields.fields@.len(),
    {
        let mut i: usize = 0;
        while i < self.fields.fields.len()
            invariant
                self.fields.fields@ == old(self).fields.fields@,
                i <= self.fields.fields@.len(),
            decreases self.fields.fields@.len() - i,
        {
            let f = &self.fields.fields[i];
            if f.x == position.x && f.y == position.y {
                let updated = Field::new(position, color);
                self.fields.fields.set(i, updated);
                return;
            }
            i += 1;
        }
        self.fields.fields.push(Field::new(position, color));
    }

    /// Places the given piece on the board with no additional checks.
    pub fn place(&mut self, piece: &Piece)
        requires
            piece.position.in_range(),
            -0x3000_0000 < piece.position.x && piece.position.x < 0x3000_0000,
            -0x3000_0000 < piece.position.y && piece.position.y < 0x3000_0000,
    {
        let cells = piece.coordinates();
        let mut i: usize = 0;
        while i < cells.len()
            decreases cells@.len() - i,
        {
            self.set(cells[i], piece.color);
            i += 1;
        }
    }

    /// Checks whether the given position is obstructed.
    pub fn is_obstructed(&self, position: Vec2) -> (r: bool)
        ensures
            r == exists|i: int| 0 <= i < self.fields.fields@.len()
                && (#[trigger] self.fields.fields@[i]).spec_position() == position
                && self.fields.fields@[i].content != Color::Neutral,
    {
        let mut i: usize = 0;
        while i < self.fields.fields.len()
            invariant
                i <= self.fields.fields@.len(),
                forall|k: int| 0 <= k < i
                    ==> !((#[trigger] self.fields.fields@[k]).spec_position() == position
                        && self.fields.fields@[k].content != Color::Neutral),
            decreases self.fields.fields@.len() - i,
        {
            let f = &self.fields.fields[i];
            if f.x == position.x && f.y == position.y && !(f.content == Color::Neutral) {
                proof {
                    assert(self.fields.fields@[i as int].spec_position() == position);
                }
                return true;
            }
            i += 1;
        }
        false
    }

    /// Checks whether the position touches an edge-neighbor of the same
    /// color.
    pub fn borders_on_color(&self, position: Vec2, color: Color) -> (r: bool)
        requires
            position.in_range(),
        ensures
            r == (self.spec_get(Vec2 { x: (position.x + 1) as i32, y: position.y }) == color
                || self.spec_get(Vec2 { x: position.x, y: (position.y + 1) as i32 }) == color
                || self.spec_get(Vec2 { x: (position.x - 1) as i32, y: position.y }) == color
                || self.spec_get(Vec2 { x: position.x, y: (position.y - 1) as i32 }) == color),
    {
        self.get(Vec2::new(position.x + 1, position.y)) == color
            || self.get(Vec2::new(position.x, position.y + 1)) == color
            || self.get(Vec2::new(position.x - 1, position.y)) == color
            || self.get(Vec2::new(position.x, position.y - 1)) == color
    }

    /// Checks whether the position touches a diagonal neighbor of the
    /// same color.
    pub fn corners_on_color(&self, position: Vec2, color: Color) -> (r: bool)
        requires
            position.in_range(),
        ensures
            r == (self.spec_get(Vec2 { x: (position.x + 1) as i32, y: (position.y + 1) as i32 }) == color
                || self.spec_get(Vec2 { x: (position.x - 1) as i32, y: (position.y + 1) as i32 }) == color
                || self.spec_get(Vec2 { x: (position.x + 1) as i32, y: (position.y - 1) as i32 }) == color
                || self.spec_get(Vec2 { x: (position.x - 1) as i32, y: (position.y - 1) as i32 }) == color),
    {
        self.get(Vec2::new(position.x + 1, position.y + 1)) == color
            || self.get(Vec2::new(position.x - 1, position.y + 1)) == color
            || self.get(Vec2::new(position.x + 1, position.y - 1)) == color
            || self.get(Vec2::new(position.x - 1, position.y - 1)) == color
    }
}

} // verus!
