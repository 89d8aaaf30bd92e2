//! A field on the square board.

use vstd::prelude::*;
use crate::blokus::color::Color;
use crate::blokus::vec2::Vec2;

verus! {

/// A field on the board holding a color.
#[derive(Debug, Copy, Clone, PartialEq, Eq, Structural)]
pub struct Field {
    /// Unpacked position.
    pub x: i32,
    pub y: i32,
    pub content: Color,
}

impl Field {
    /// The field's position.
    pub open spec fn spec_position(self) -> Vec2 {
        Vec2 { x: self.x, y: self.y }
    }

    /// Creates a new field.
    pub fn new(position: Vec2, content: Color) -> (r: Self)
        ensures
            r == (Field { x: position.x, y: position.y, content }),
    {
        Self { x: position.x, y: position.y, content }
    }

    /// Fetches the field's position.
    pub fn position(&self) -> (r: Vec2)
        ensures
            r == self.spec_position(),
    {
        Vec2::new(self.x, self.y)
    }
}

} // verus!
