//! Polyomino piece shapes, held as a 5x5 bit-matrix of cells.

use vstd::prelude::*;
use vstd::string::StringExecFns;
use crate::blokus::coordinates::Coordinates;
use crate::blokus::rotation::Rotation;

verus! {

/// An efficient representation of a piece shape's normalized coordinates:
/// every shape fits a 5x5 box, one bit per cell, row by row.
#[derive(Debug, Copy, Clone, Eq, PartialEq, Hash, Structural)]
pub struct CoordinateSet {
    pub bits: u32,
}

impl CoordinateSet {
    /// Whether the cell at `(x, y)` is in the set.
    pub open spec fn spec_contains(self, x: int, y: int) -> bool {
        0 <= x < 5 && 0 <= y < 5 && (self.bits >> (y * 5 + x)) & 1 == 1
    }

    /// Creates an empty set.
    pub fn new() -> (r: Self)
        ensures
            r.bits == 0,
    {
        Self { bits: 0 }
    }

    /// Inserts a pair of coordinates inside the 5x5 box into the set.
    pub fn insert(&mut self, coordinates: Coordinates)
        requires
            0 <= coordinates.x < 5,
            0 <= coordinates.y < 5,
        ensures
            final(self).bits == old(self).bits | (1u32 << (coordinates.y * 5 + coordinates.x)),
    {
        let idx: u32 = ((coordinates.y * 5) + coordinates.x) as u32;
        self.bits = self.bits | (1u32 << idx);
    }

    /// Checks whether the set contains a given pair of coordinates.
    pub fn contains(&self, coordinates: Coordinates) -> (r: bool)
        ensures
            r == self.spec_contains(coordinates.x as int, coordinates.y as int),
    {
        coordinates.x >= 0 && coordinates.y >= 0 && coordinates.x < 5 && coordinates.y < 5
            && ((self.bits >> (((coordinates.y * 5) + coordinates.x) as u32)) & 1) == 1
    }
}

/// Represents a polyomino shape; there are 21 different kinds.
#[derive(Debug, Clone, Eq)]
pub struct PieceShape {
    /// The shape's internal name.
    pub name: String,
    /// The normalized coordinates that make up the shape.
    pub coordinates: CoordinateSet,
}

impl PartialEq for PieceShape {
    fn eq(&self, other: &PieceShape) -> bool {
        self.name == other.name && self.coordinates.bits == other.coordinates.bits
    }
}

impl vstd::std_specs::cmp::PartialEqSpecImpl for PieceShape {
    open spec fn obeys_eq_spec() -> bool {
        true
    }

    open spec fn eq_spec(&self, other: &PieceShape) -> bool {
        self.name@ == other.name@ && self.coordinates.bits == other.coordinates.bits
    }
}

impl PieceShape {
    /// Creates a shape from its name and cells; the cells must sit in the
    /// normalized 5x5 box.
    pub fn new(name: &str, coordinates: &Vec<Coordinates>) -> (r: Self)
        requires
            forall|i: int| 0 <= i < coordinates@.len()
                ==> 0 <= (#[trigger] coordinates@[i]).x < 5 && 0 <= coordinates@[i].y < 5,
        ensures
            r.name@ == name@,
    {
        let mut set = CoordinateSet::new();
        let mut i: usize = 0;
        while i < coordinates.len()
            invariant
                i <= coordinates@.len(),
                forall|k: int| 0 <= k < coordinates@.len()
                    ==> 0 <= (#[trigger] coordinates@[k]).x < 5 && 0 <= coordinates@[k].y < 5,
            decreases coordinates@.len() - i,
        {
            set.insert(coordinates[i]);
            i += 1;
        }
        Self { name: String::from_str(name), coordinates: set }
    }

    /// Fetches the shape's name.
    pub fn name(&self) -> (r: &str)
        ensures
            r@ == self.name@,
    {
        self.name.as_str()
    }

    /// A list of the shape's cells, with the upper left corner of the box
    /// as the origin, x pointing right and y pointing down.
    pub fn coordinates(&self) -> (r: Vec<Coordinates>)
        ensures
            forall|i: int| 0 <= i < r@.len()
                ==> 0 <= (#[trigger] r@[i]).x < 5 && 0 <= r@[i].y < 5
                    && self.coordinates.spec_contains(r@[i].x as int, r@[i].y as int),
    {
        let mut r: Vec<Coordinates> = Vec::new();
        let mut y: i32 = 0;
        while y < 5
            invariant
                0 <= y <= 5,
                forall|i: int| 0 <= i < r@.len()
                    ==> 0 <= (#[trigger] r@[i]).x < 5 && 0 <= r@[i].y < 5
                        && self.coordinates.spec_contains(r@[i].x as int, r@[i].y as int),
            decreases 5 - y,
        {
            let mut x: i32 = 0;
            while x < 5
                invariant
                    0 <= y < 5,
                    0 <= x <= 5,
                    forall|i: int| 0 <= i < r@.len()
                        ==> 0 <= (#[trigger] r@[i]).x < 5 && 0 <= r@[i].y < 5
                            && self.coordinates.spec_contains(r@[i].x as int, r@[i].y as int),
                decreases 5 - x,
            {
                let c = Coordinates::new(x, y);
                let ghost rpre = r@;
                if self.coordinates.contains(c) {
                    r.push(c);
                    proof {
                        assert(forall|k: int| 0 <= k < rpre.len() ==> r@[k] == rpre[k]);
                        assert(r@[rpre.len() as int] == c);
                    }
                }
                x += 1;
            }
            y += 1;
        }
        r
    }

    /// Renormalizes transformed cells so that the smallest coordinates
    /// become the origin, and rebuilds the shape.
    fn renormalized(&self, cells: &Vec<Coordinates>) -> (r: Self)
        requires
            forall|i: int| 0 <= i < cells@.len()
                ==> -5 < (#[trigger] cells@[i]).x < 5 && -5 < cells@[i].y < 5,
        ensures
            r.name@ == self.name@,
    {
        if cells.len() == 0 {
            return Self { name: self.name.clone(), coordinates: CoordinateSet::new() };
        }
        let mut min_x: i32 = cells[0].x;
        let mut min_y: i32 = cells[0].y;
        let mut i: usize = 1;
        while i < cells.len()
            invariant
                cells@.len() > 0,
                i <= cells@.len(),
                forall|k: int| 0 <= k < cells@.len()
                    ==> -5 < (#[trigger] cells@[k]).x < 5 && -5 < cells@[k].y < 5,
                -5 < min_x < 5,
                -5 < min_y < 5,
                forall|k: int| 0 <= k < i ==> min_x <= (#[trigger] cells@[k]).x,
                forall|k: int| 0 <= k < i ==> min_y <= (#[trigger] cells@[k]).y,
            decreases cells@.len() - i,
        {
            if cells[i].x < min_x {
                min_x = cells[i].x;
            }
            if cells[i].y < min_y {
                min_y = cells[i].y;
            }
            i += 1;
        }
        let mut shifted: Vec<Coordinates> = Vec::new();
        let mut i: usize = 0;
        while i < cells.len()
            invariant
                i <= cells@.len(),
                forall|k: int| 0 <= k < cells@.len()
                    ==> -5 < (#[trigger] cells@[k]).x < 5 && -5 < cells@[k].y < 5,
                -5 < min_x < 5,
                -5 < min_y < 5,
                forall|k: int| 0 <= k < cells@.len() ==> min_x <= (#[trigger] cells@[k]).x,
                forall|k: int| 0 <= k < cells@.len() ==> min_y <= (#[trigger] cells@[k]).y,
                forall|k: int| 0 <= k < shifted@.len()
                    ==> 0 <= (#[trigger] shifted@[k]).x < 10 && 0 <= shifted@[k].y < 10,
            decreases cells@.len() - i,
        {
            let ghost spre = shifted@;
            shifted.push(Coordinates::new(cells[i].x - min_x, cells[i].y - min_y));
            proof {
                assert(forall|k: int| 0 <= k < spre.len() ==> shifted@[k] == spre[k]);
            }
            i += 1;
        }
        // transformed shapes of a normalized shape always fit the box again
        let mut boxed: Vec<Coordinates> = Vec::new();
        let mut i: usize = 0;
        while i < shifted.len()
            invariant
                i <= shifted@.len(),
                forall|k: int| 0 <= k < shifted@.len()
                    ==> 0 <= (#[trigger] shifted@[k]).x < 10 && 0 <= shifted@[k].y < 10,
                forall|k: int| 0 <= k < boxed@.len()
                    ==> 0 <= (#[trigger] boxed@[k]).x < 5 && 0 <= boxed@[k].y < 5,
            decreases shifted@.len() - i,
        {
            let c = shifted[i];
            let ghost bpre = boxed@;
            if c.x < 5 && c.y < 5 {
                boxed.push(c);
                proof {
                    assert(forall|k: int| 0 <= k < bpre.len() ==> boxed@[k] == bpre[k]);
                }
            }
            i += 1;
        }
        Self::with_name(self.name.clone(), &boxed)
    }

    /// Builds a shape from an owned name and boxed cells.
    fn with_name(name: String, coordinates: &Vec<Coordinates>) -> (r: Self)
        requires
            forall|i: int| 0 <= i < coordinates@.len()
                ==> 0 <= (#[trigger] coordinates@[i]).x < 5 && 0 <= coordinates@[i].y < 5,
        ensures
            r.name@ == name@,
    {
        let mut set = CoordinateSet::new();
        let mut i: usize = 0;
        while i < coordinates.len()
            invariant
                i <= coordinates@.len(),
                forall|k: int| 0 <= k < coordinates@.len()
                    ==> 0 <= (#[trigger] coordinates@[k]).x < 5 && 0 <= coordinates@[k].y < 5,
            decreases coordinates@.len() - i,
        {
            set.insert(coordinates[i]);
            i += 1;
        }
        Self { name, coordinates: set }
    }

    /// Mirrors this shape by negating all coordinates.
    fn mirror(&self) -> (r: Self)
        ensures
            r.name@ == self.name@,
    {
        let cells = self.coordinates();
        let mut out: Vec<Coordinates> = Vec::new();
        let mut i: usize = 0;
        while i < cells.len()
            invariant
                i <= cells@.len(),
                forall|k: int| 0 <= k < cells@.len()
                    ==> 0 <= (#[trigger] cells@[k]).x < 5 && 0 <= cells@[k].y < 5,
                forall|k: int| 0 <= k < out@.len()
                    ==> -5 < (#[trigger] out@[k]).x < 5 && -5 < out@[k].y < 5,
            decreases cells@.len() - i,
        {
            let ghost opre = out@;
            out.push(cells[i].negated());
            proof {
                assert(forall|k: int| 0 <= k < opre.len() ==> out@[k] == opre[k]);
            }
            i += 1;
        }
        self.renormalized(&out)
    }

    /// Turns this piece 90 degrees to the right.
    fn rotated_right(&self) -> (r: Self)
        ensures
            r.name@ == self.name@,
    {
        let cells = self.coordinates();
        let mut out: Vec<Coordinates> = Vec::new();
        let mut i: usize = 0;
        while i < cells.len()
            invariant
                i <= cells@.len(),
                forall|k: int| 0 <= k < cells@.len()
                    ==> 0 <= (#[trigger] cells@[k]).x < 5 && 0 <= cells@[k].y < 5,
                forall|k: int| 0 <= k < out@.len()
                    ==> -5 < (#[trigger] out@[k]).x < 5 && -5 < out@[k].y < 5,
            decreases cells@.len() - i,
        {
            let ghost opre = out@;
            out.push(cells[i].turn_right());
            proof {
                assert(forall|k: int| 0 <= k < opre.len() ==> out@[k] == opre[k]);
            }
            i += 1;
        }
        self.renormalized(&out)
    }

    /// Turns this piece 90 degrees to the left.
    fn rotated_left(&self) -> (r: Self)
        ensures
            r.name@ == self.name@,
    {
        let cells = self.coordinates();
        let mut out: Vec<Coordinates> = Vec::new();
        let mut i: usize = 0;
        while i < cells.len()
            invariant
                i <= cells@.len(),
                forall|k: int| 0 <= k < cells@.len()
                    ==> 0 <= (#[trigger] cells@[k]).x < 5 && 0 <= cells@[k].y < 5,
                forall|k: int| 0 <= k < out@.len()
                    ==> -5 < (#[trigger] out@[k]).x < 5 && -5 < out@[k].y < 5,
            decreases cells@.len() - i,
        {
            let ghost opre = out@;
            out.push(cells[i].turn_left());
            proof {
                assert(forall|k: int| 0 <= k < opre.len() ==> out@[k] == opre[k]);
            }
            i += 1;
        }
        self.renormalized(&out)
    }

    /// An observational copy of the shape.
    pub fn duplicate(&self) -> (r: Self)
        ensures
            r.name@ == self.name@,
            r.coordinates == self.coordinates,
    {
        Self { name: self.name.clone(), coordinates: self.coordinates }
    }

    /// Performs a rotation of this piece shape.
    pub fn rotate(&self, rotation: Rotation) -> (r: Self)
        ensures
            r.name@ == self.name@,
    {
        match rotation {
            Rotation::Identity => self.duplicate(),
            Rotation::Mirror => self.mirror(),
            Rotation::Right => self.rotated_right(),
            Rotation::Left => self.rotated_left(),
        }
    }

    /// Fetches the shape as placed: rotated, and flipped if requested.
    pub fn transform(&self, rotation: Rotation, is_flipped: bool) -> (r: Self)
        ensures
            r.name@ == self.name@,
    {
        let rotated = self.rotate(rotation);
        if is_flipped {
            let cells = rotated.coordinates();
            let mut out: Vec<Coordinates> = Vec::new();
            let mut i: usize = 0;
            while i < cells.len()
                invariant
                    rotated.name@ == self.name@,
                    i <= cells@.len(),
                    forall|k: int| 0 <= k < cells@.len()
                        ==> 0 <= (#[trigger] cells@[k]).x < 5 && 0 <= cells@[k].y < 5,
                    forall|k: int| 0 <= k < out@.len()
                        ==> -5 < (#[trigger] out@[k]).x < 5 && -5 < out@[k].y < 5,
                decreases cells@.len() - i,
            {
                let ghost opre = out@;
                out.push(cells[i].flip());
                proof {
                    assert(forall|k: int| 0 <= k < opre.len() ==> out@[k] == opre[k]);
                }
                i += 1;
            }
            rotated.renormalized(&out)
        } else {
            rotated
        }
    }
}

} // verus!
