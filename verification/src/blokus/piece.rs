//! A placed piece: a shape with color, position and orientation.

use vstd::prelude::*;
use crate::blokus::color::Color;
use crate::blokus::coordinates::Coordinates;
use crate::blokus::piece_shape::PieceShape;
use crate::blokus::rotation::Rotation;
use crate::blokus::vec2::Vec2;

verus! {

/// A game piece with color, position and transformed form.
#[derive(Debug, Clone, PartialEq, Eq)]
pub struct Piece {
    /// The piece's untransformed shape.
    pub kind: PieceShape,
    /// How far the piece has been rotated.
    pub rotation: Rotation,
    /// Whether the piece has been mirrored along the y-axis.
    pub is_flipped: bool,
    /// The piece's color.
    pub color: Color,
    /// The top left corner of the piece's rectangular bounding box.
    pub position: Vec2,
}

impl Piece {
    /// Fetches the piece's actual (transformed) shape.
    pub fn shape(&self) -> (r: PieceShape)
        ensures
            r.name@ == self.kind.name@,
    {
        self.kind.transform(self.rotation, self.is_flipped)
    }

    /// Fetches the piece's actual cell coordinates on the board.
    pub fn coordinates(&self) -> (r: Vec<Vec2>)
        requires
            self.position.in_range(),
            -0x3000_0000 < self.position.x && self.position.x < 0x3000_0000,
            -0x3000_0000 < self.position.y && self.position.y < 0x3000_0000,
        ensures
            forall|i: int| 0 <= i < r@.len()
                ==> self.position.x <= (#[trigger] r@[i]).x < self.position.x + 5
                    && self.position.y <= r@[i].y < self.position.y + 5,
    {
        let shape = self.shape();
        let cells = shape.coordinates();
        let mut r: Vec<Vec2> = Vec::new();
        let mut i: usize = 0;
        while i < cells.len()
            invariant
                -0x3000_0000 < self.position.x && self.position.x < 0x3000_0000,
                -0x3000_0000 < self.position.y && self.position.y < 0x3000_0000,
                i <= cells@.len(),
                forall|k: int| 0 <= k < cells@.len()
                    ==> 0 <= (#[trigger] cells@[k]).x < 5 && 0 <= cells@[k].y < 5,
                forall|k: int| 0 <= k < r@.len()
                    ==> self.position.x <= (#[trigger] r@[k]).x < self.position.x + 5
                        && self.position.y <= r@[k].y < self.position.y + 5,
            decreases cells@.len() - i,
        {
            let c = cells[i];
            let ghost rpre = r@;
            r.push(Vec2::new(self.position.x + c.x, self.position.y + c.y));
            proof {
                assert(forall|k: int| 0 <= k < rpre.len() ==> r@[k] == rpre[k]);
            }
            i += 1;
        }
        r
    }
}

} // verus!
