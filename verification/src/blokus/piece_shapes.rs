//! The catalog of shapes and collections of undeployed shapes.

use vstd::prelude::*;
use crate::blokus::coordinates::Coordinates;
use crate::blokus::piece_shape::PieceShape;
use crate::strings::str_eq;

verus! {

/// The number of distinct shapes in the game.
pub const SHAPE_COUNT: usize = 21;

/// Builds the full catalog of the 21 shapes.
pub fn all_piece_shapes() -> (r: Vec<PieceShape>)
    ensures
        r@.len() == SHAPE_COUNT,
{
    let mut r: Vec<PieceShape> = Vec::new();
    r.push(PieceShape::new("MONO", &vec![Coordinates::new(0, 0)]));
    r.push(PieceShape::new("DOMINO", &vec![Coordinates::new(0, 0), Coordinates::new(1, 0)]));
    r.push(PieceShape::new("TRIO_L", &vec![Coordinates::new(0, 0), Coordinates::new(0, 1), Coordinates::new(1, 1)]));
    r.push(PieceShape::new("TRIO_I", &vec![Coordinates::new(0, 0), Coordinates::new(0, 1), Coordinates::new(0, 2)]));
    r.push(PieceShape::new("TETRO_O", &vec![Coordinates::new(0, 0), Coordinates::new(1, 0), Coordinates::new(0, 1), Coordinates::new(1, 1)]));
    r.push(PieceShape::new("TETRO_T", &vec![Coordinates::new(0, 0), Coordinates::new(1, 0), Coordinates::new(2, 0), Coordinates::new(1, 1)]));
    r.push(PieceShape::new("TETRO_I", &vec![Coordinates::new(0, 0), Coordinates::new(0, 1), Coordinates::new(0, 2), Coordinates::new(0, 3)]));
    r.push(PieceShape::new("TETRO_L", &vec![Coordinates::new(0, 0), Coordinates::new(0, 1), Coordinates::new(0, 2), Coordinates::new(1, 2)]));
    r.push(PieceShape::new("TETRO_Z", &vec![Coordinates::new(0, 0), Coordinates::new(1, 0), Coordinates::new(1, 1), Coordinates::new(2, 1)]));
    r.push(PieceShape::new("PENTO_L", &vec![Coordinates::new(0, 0), Coordinates::new(0, 1), Coordinates::new(0, 2), Coordinates::new(0, 3), Coordinates::new(1, 3)]));
    r.push(PieceShape::new("PENTO_T", &vec![Coordinates::new(0, 0), Coordinates::new(1, 0), Coordinates::new(2, 0), Coordinates::new(1, 1), Coordinates::new(1, 2)]));
    r.push(PieceShape::new("PENTO_V", &vec![Coordinates::new(0, 0), Coordinates::new(0, 1), Coordinates::new(0, 2), Coordinates::new(1, 2), Coordinates::new(2, 2)]));
    r.push(PieceShape::new("PENTO_S", &vec![Coordinates::new(1, 0), Coordinates::new(2, 0), Coordinates::new(3, 0), Coordinates::new(0, 1), Coordinates::new(1, 1)]));
    r.push(PieceShape::new("PENTO_Z", &vec![Coordinates::new(0, 0), Coordinates::new(1, 0), Coordinates::new(1, 1), Coordinates::new(1, 2), Coordinates::new(2, 2)]));
    r.push(PieceShape::new("PENTO_I", &vec![Coordinates::new(0, 0), Coordinates::new(0, 1), Coordinates::new(0, 2), Coordinates::new(0, 3), Coordinates::new(0, 4)]));
    r.push(PieceShape::new("PENTO_P", &vec![Coordinates::new(0, 0), Coordinates::new(1, 0), Coordinates::new(0, 1), Coordinates::new(1, 1), Coordinates::new(0, 2)]));
    r.push(PieceShape::new("PENTO_W", &vec![Coordinates::new(0, 0), Coordinates::new(0, 1), Coordinates::new(1, 1), Coordinates::new(1, 2), Coordinates::new(2, 2)]));
    r.push(PieceShape::new("PENTO_U", &vec![Coordinates::new(0, 0), Coordinates::new(0, 1), Coordinates::new(1, 1), Coordinates::new(2, 1), Coordinates::new(2, 0)]));
    r.push(PieceShape::new("PENTO_R", &vec![Coordinates::new(0, 1), Coordinates::new(1, 1), Coordinates::new(1, 2), Coordinates::new(2, 1), Coordinates::new(2, 0)]));
    r.push(PieceShape::new("PENTO_X", &vec![Coordinates::new(1, 0), Coordinates::new(0, 1), Coordinates::new(1, 1), Coordinates::new(2, 1), Coordinates::new(1, 2)]));
    r.push(PieceShape::new("PENTO_Y", &vec![Coordinates::new(0, 1), Coordinates::new(1, 0), Coordinates::new(1, 1), Coordinates::new(1, 2), Coordinates::new(1, 3)]));
    r
}

/// Looks a shape up in the catalog by name.
pub fn shape_by_name(name: &str) -> (r: Option<PieceShape>) {
    let shapes = all_piece_shapes();
    let mut i: usize = 0;
    while i < shapes.len()
        decreases shapes@.len() - i,
    {
        if str_eq(shapes[i].name(), name) {
            return Some(shapes[i].duplicate());
        }
        i += 1;
    }
    None
}

/// A collection of undeployed shapes, at most one of each kind.
#[derive(Debug, Clone, PartialEq, Eq)]
pub struct PieceShapes {
    pub shapes: Vec<PieceShape>,
}

impl PieceShapes {
    /// Creates an empty collection.
    pub fn new() -> (r: Self)
        ensures
            r.shapes@.len() == 0,
    {
        Self { shapes: Vec::new() }
    }

    /// The number of shapes.
    pub fn len(&self) -> (r: usize)
        ensures
            r == self.shapes@.len(),
    {
        self.shapes.len()
    }

    /// Tests whether the collection is empty.
    pub fn is_empty(&self) -> (r: bool)
        ensures
            r == (self.shapes@.len() == 0),
    {
        self.shapes.len() == 0
    }

    /// Whether some held shape has the given name.
    pub open spec fn spec_contains_name(self, name: Seq<char>) -> bool {
        exists|i: int| 0 <= i < self.shapes@.len() && (#[trigger] self.shapes@[i]).name@ == name
    }

    /// Tests whether a shape of the given name is held.
    pub fn contains_name(&self, name: &str) -> (r: bool)
        ensures
            r == self.spec_contains_name(name@),
    {
        let mut i: usize = 0;
        while i < self.shapes.len()
            invariant
                i <= self.shapes@.len(),
                forall|k: int| 0 <= k < i ==> (#[trigger] self.shapes@[k]).name@ != name@,
            decreases self.shapes@.len() - i,
        {
            if str_eq(self.shapes[i].name(), name) {
                proof {
                    assert(self.shapes@[i as int].name@ == name@);
                }
                return true;
            }
            i += 1;
        }
        false
    }

    /// Appends a shape.
    pub fn push(&mut self, shape: PieceShape)
        ensures
            final(self).shapes@ == old(self).shapes@.push(shape),
    {
        self.shapes.push(shape)
    }

    /// Removes the shape with the given name, reporting whether one was
    /// held.
    pub fn remove(&mut self, name: &str) -> (r: bool)
        ensures
            r == old(self).spec_contains_name(name@),
            !r ==> final(self).shapes@ == old(self).shapes@,
    {
        let mut i: usize = 0;
        while i < self.shapes.len()
            invariant
                i <= self.shapes@.len(),
                self.shapes@ == old(self).shapes@,
                forall|k: int| 0 <= k < i ==> (#[trigger] self.shapes@[k]).name@ != name@,
            decreases self.shapes@.len() - i,
        {
            if str_eq(self.shapes[i].name(), name) {
                proof {
                    assert(self.shapes@[i as int].name@ == name@);
                }
                self.shapes.remove(i);
                return true;
            }
            i += 1;
        }
        false
    }

    /// Read access to the shapes.
    pub fn iter(&self) -> (r: &Vec<PieceShape>)
        ensures
            r == &self.shapes,
    {
        &self.shapes
    }
}

} // verus!
