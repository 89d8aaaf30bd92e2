//! Geometry on hexagonal grids: axial, cube and doubled coordinates
//! together with adjacency and straight-line algebra.

use vstd::prelude::*;

verus! {

/// Coordinates stay well inside `i32` so that sums and differences of two
/// coordinates never overflow.
pub const COORD_BOUND: i32 = 0x4000_0000;

/// Axial coordinates on the hex grid.
#[derive(Debug, Copy, Clone, PartialEq, Eq, Hash, Structural)]
pub struct AxialCoords {
    pub x: i32,
    pub y: i32,
}

/// Cube coordinates on the hex grid; valid ones satisfy `x + y + z == 0`.
#[derive(Debug, Copy, Clone, PartialEq, Eq, Hash, Structural)]
pub struct CubeCoords {
    pub x: i32,
    pub y: i32,
    pub z: i32,
}

/// Offset coordinates with a doubled horizontal step size, used when
/// parsing and rendering ASCII hex grids.
#[derive(Debug, Copy, Clone, PartialEq, Eq, Hash, Structural)]
pub struct DoubledCoords {
    pub x: i32,
    pub y: i32,
}

impl AxialCoords {
    /// True when both components are small enough for coordinate algebra
    /// (sums and differences of two such coordinates fit in `i32`).
    pub open spec fn in_range(self) -> bool {
        -COORD_BOUND < self.x < COORD_BOUND && -COORD_BOUND < self.y < COORD_BOUND
    }

    /// The six axial offsets of the neighbors of `self`.
    pub open spec fn spec_neighbors(self) -> Seq<AxialCoords> {
        seq![
            AxialCoords { x: self.x, y: (self.y + 1) as i32 },
            AxialCoords { x: (self.x + 1) as i32, y: self.y },
            AxialCoords { x: (self.x + 1) as i32, y: (self.y - 1) as i32 },
            AxialCoords { x: self.x, y: (self.y - 1) as i32 },
            AxialCoords { x: (self.x - 1) as i32, y: self.y },
            AxialCoords { x: (self.x - 1) as i32, y: (self.y + 1) as i32 },
        ]
    }

    /// Adjacency on the hex grid: `other` is one of the six neighbors.
    #[verifier::opaque]
    pub open spec fn spec_adjacent(self, other: AxialCoords) -> bool {
        self.spec_neighbors().contains(other)
    }

    /// Creates new axial coordinates.
    pub fn new(x: i32, y: i32) -> (r: Self)
        ensures
            r == (AxialCoords { x, y }),
    {
        Self { x, y }
    }

    /// Fetches the x-component.
    pub fn x(self) -> (r: i32)
        ensures
            r == self.x,
    {
        self.x
    }

    /// Fetches the y-component.
    pub fn y(self) -> (r: i32)
        ensures
            r == self.y,
    {
        self.y
    }

    /// Fetches all 6 neighbors, regardless of any board boundaries.
    pub fn coord_neighbors(self) -> (r: Vec<AxialCoords>)
        requires
            self.in_range(),
        ensures
            r@ == self.spec_neighbors(),
    {
        let r = vec![
            AxialCoords::new(self.x, self.y + 1),
            AxialCoords::new(self.x + 1, self.y),
            AxialCoords::new(self.x + 1, self.y - 1),
            AxialCoords::new(self.x, self.y - 1),
            AxialCoords::new(self.x - 1, self.y),
            AxialCoords::new(self.x - 1, self.y + 1),
        ];
        proof {
            assert(r@ =~= self.spec_neighbors());
        }
        r
    }

    /// Tests whether `rhs` is one of the six neighbors of `self`.
    pub fn is_adjacent_to(self, rhs: AxialCoords) -> (r: bool)
        requires
            self.in_range(),
        ensures
            r == self.spec_adjacent(rhs),
    {
        let dx: i64 = (rhs.x as i64) - (self.x as i64);
        let dy: i64 = (rhs.y as i64) - (self.y as i64);
        let r = (dx == 0 && dy == 1) || (dx == 1 && dy == 0) || (dx == 1 && dy == -1)
            || (dx == 0 && dy == -1) || (dx == -1 && dy == 0) || (dx == -1 && dy == 1);
        proof {
            reveal(AxialCoords::spec_adjacent);
            let nbs = self.spec_neighbors();
            if r {
                assert(exists|i: int| 0 <= i < nbs.len() && nbs[i] == rhs) by {
                    if dx == 0 && dy == 1 {
                        assert(nbs[0] == rhs);
                    } else if dx == 1 && dy == 0 {
                        assert(nbs[1] == rhs);
                    } else if dx == 1 && dy == -1 {
                        assert(nbs[2] == rhs);
                    } else if dx == 0 && dy == -1 {
                        assert(nbs[3] == rhs);
                    } else if dx == -1 && dy == 0 {
                        assert(nbs[4] == rhs);
                    } else {
                        assert(nbs[5] == rhs);
                    }
                }
            } else {
                assert forall|i: int| 0 <= i < nbs.len() implies nbs[i] != rhs by {}
            }
        }
        r
    }

    /// Converts to cube coordinates by completing the third axis.
    pub fn to_cube(self) -> (r: CubeCoords)
        requires
            self.in_range(),
        ensures
            r.x == self.x,
            r.y == self.y,
            r.z == -(self.x + self.y),
            r.valid(),
    {
        CubeCoords { x: self.x, y: self.y, z: -(self.x + self.y) }
    }

    /// Converts to doubled coordinates via the offset transform.
    pub fn to_doubled(self) -> (r: DoubledCoords)
        requires
            self.in_range(),
        ensures
            r.x == self.x - self.y,
            r.y == -(self.x + self.y),
    {
        DoubledCoords { x: self.x - self.y, y: -(self.x + self.y) }
    }
}

impl CubeCoords {
    /// Cube coordinates address a hex cell exactly when the axes cancel.
    pub open spec fn valid(self) -> bool {
        self.x + self.y + self.z == 0
    }

    /// True when all components are small enough for coordinate algebra.
    pub open spec fn in_range(self) -> bool {
        -COORD_BOUND < self.x < COORD_BOUND && -COORD_BOUND < self.y < COORD_BOUND
            && -COORD_BOUND < self.z < COORD_BOUND
    }

    /// Creates new (unvalidated) cube coordinates.
    pub fn new(x: i32, y: i32, z: i32) -> (r: Self)
        ensures
            r == (CubeCoords { x, y, z }),
    {
        Self { x, y, z }
    }

    /// Creates new cube coordinates if they are valid.
    pub fn new_valid(x: i32, y: i32, z: i32) -> (r: Option<Self>)
        requires
            -COORD_BOUND < x < COORD_BOUND,
            -COORD_BOUND < y < COORD_BOUND,
            -COORD_BOUND < z < COORD_BOUND,
        ensures
            r is Some <==> x + y + z == 0,
            r is Some ==> r->Some_0 == (CubeCoords { x, y, z }) && r->Some_0.valid(),
    {
        if (x as i64) + (y as i64) + (z as i64) == 0 {
            Some(CubeCoords { x, y, z })
        } else {
            None
        }
    }

    /// Fetches the x-component.
    pub fn x(self) -> (r: i32)
        ensures
            r == self.x,
    {
        self.x
    }

    /// Fetches the y-component.
    pub fn y(self) -> (r: i32)
        ensures
            r == self.y,
    {
        self.y
    }

    /// Fetches the z-component.
    pub fn z(self) -> (r: i32)
        ensures
            r == self.z,
    {
        self.z
    }

    /// Converts to axial coordinates by dropping the redundant axis.
    pub fn to_axial(self) -> (r: AxialCoords)
        ensures
            r == (AxialCoords { x: self.x, y: self.y }),
    {
        AxialCoords { x: self.x, y: self.y }
    }

    /// Two cells form a straight hex line when they agree on one axis.
    pub open spec fn spec_forms_line_with(self, rhs: CubeCoords) -> bool {
        self.x == rhs.x || self.y == rhs.y || self.z == rhs.z
    }

    /// Tests whether `self` and `rhs` lie on a common straight line.
    pub fn forms_line_with(self, rhs: CubeCoords) -> (r: bool)
        ensures
            r == self.spec_forms_line_with(rhs),
    {
        self.x == rhs.x || self.y == rhs.y || self.z == rhs.z
    }
}

impl DoubledCoords {
    /// True when both components are small enough for coordinate algebra.
    pub open spec fn in_range(self) -> bool {
        -COORD_BOUND < self.x < COORD_BOUND && -COORD_BOUND < self.y < COORD_BOUND
    }

    /// Creates new doubled coordinates.
    pub fn new(x: i32, y: i32) -> (r: Self)
        ensures
            r == (DoubledCoords { x, y }),
    {
        Self { x, y }
    }

    /// Fetches the x-component.
    pub fn x(self) -> (r: i32)
        ensures
            r == self.x,
    {
        self.x
    }

    /// Fetches the y-component.
    pub fn y(self) -> (r: i32)
        ensures
            r == self.y,
    {
        self.y
    }

    /// Converts to axial coordinates, inverting the offset transform
    /// (componentwise division truncates towards zero, as in `i32::div`).
    pub fn to_axial(self) -> (r: AxialCoords)
        requires
            self.in_range(),
        ensures
            r.x == div2_trunc(self.x - self.y),
            r.y == div2_trunc(-(self.x + self.y)),
    {
        AxialCoords { x: half_towards_zero(self.x - self.y), y: half_towards_zero(-(self.x + self.y)) }
    }
}

/// An iterator-like walker that returns coordinates on a straight line,
/// advancing by a fixed step until the destination is reached.
#[derive(Debug, Copy, Clone, PartialEq, Eq, Structural)]
pub struct LineIter {
    pub current: CubeCoords,
    pub destination: CubeCoords,
    pub step: CubeCoords,
}

impl LineIter {
    /// A walker whose coordinates stay small and whose step is a unit
    /// vector, so that advancing never overflows.
    pub open spec fn wf(self) -> bool {
        &&& self.current.in_range()
        &&& self.destination.in_range()
        &&& -1 <= self.step.x <= 1 && -1 <= self.step.y <= 1 && -1 <= self.step.z <= 1
    }

    /// Creates a walker that starts at `start` and advances by `step`
    /// until it reaches `destination`.
    pub fn new(start: CubeCoords, step: CubeCoords, destination: CubeCoords) -> (r: Self)
        ensures
            r == (LineIter { current: start, destination, step }),
    {
        Self { current: start, destination, step }
    }

    /// Yields the current coordinates and advances, or stops at the
    /// destination.
    pub fn next(&mut self) -> (r: Option<CubeCoords>)
        requires
            old(self).wf(),
            -COORD_BOUND < old(self).current.x + old(self).step.x < COORD_BOUND,
            -COORD_BOUND < old(self).current.y + old(self).step.y < COORD_BOUND,
            -COORD_BOUND < old(self).current.z + old(self).step.z < COORD_BOUND,
        ensures
            old(self).current == old(self).destination
                ==> r is None && *final(self) == *old(self),
            old(self).current != old(self).destination ==> {
                &&& r == Some(old(self).current)
                &&& final(self).current.x == old(self).current.x + old(self).step.x
                &&& final(self).current.y == old(self).current.y + old(self).step.y
                &&& final(self).current.z == old(self).current.z + old(self).step.z
                &&& final(self).destination == old(self).destination
                &&& final(self).step == old(self).step
            },
    {
        if self.current.x == self.destination.x && self.current.y == self.destination.y
            && self.current.z == self.destination.z {
            None
        } else {
            let pos = self.current;
            self.current = CubeCoords::new(
                self.current.x + self.step.x,
                self.current.y + self.step.y,
                self.current.z + self.step.z,
            );
            Some(pos)
        }
    }
}

impl CubeCoords {
    /// Builds the walker over the cells strictly between `self` and `rhs`,
    /// stepping by the unit vector of the componentwise signs.
    pub fn line_iter(self, rhs: CubeCoords) -> (r: LineIter)
        requires
            self.in_range(),
            rhs.in_range(),
        ensures
            r.destination == rhs,
            r.step.x == spec_sign_i32(rhs.x - self.x),
            r.step.y == spec_sign_i32(rhs.y - self.y),
            r.step.z == spec_sign_i32(rhs.z - self.z),
            r.current.x == self.x + r.step.x,
            r.current.y == self.y + r.step.y,
            r.current.z == self.z + r.step.z,
            r.wf(),
    {
        let sx: i32 = if rhs.x > self.x { 1 } else if rhs.x < self.x { -1 } else { 0 };
        let sy: i32 = if rhs.y > self.y { 1 } else if rhs.y < self.y { -1 } else { 0 };
        let sz: i32 = if rhs.z > self.z { 1 } else if rhs.z < self.z { -1 } else { 0 };
        let step = CubeCoords::new(sx, sy, sz);
        LineIter::new(CubeCoords::new(self.x + sx, self.y + sy, self.z + sz), step, rhs)
    }
}

/// The sign of an integer difference.
pub open spec fn spec_sign_i32(n: int) -> int {
    if n > 0 {
        1
    } else if n < 0 {
        -1
    } else {
        0
    }
}

/// Types whose values can lie on a common straight grid line.
pub trait LineFormable where Self: Sized {
    /// Tests whether `self` and `rhs` form a straight line.
    fn forms_line_with(self, rhs: Self) -> bool;

    /// Fetches a walker over the elements between `self` and `rhs`.
    fn line_iter(self, rhs: Self) -> LineIter;
}

/// Types with a neighborhood relation.
pub trait Adjacentable where Self: Sized {
    /// Tests whether `self` and `rhs` are neighbors.
    fn is_adjacent_to(self, rhs: Self) -> bool;
}

/// Halving with truncation towards zero, as `i32` division behaves.
pub open spec fn div2_trunc(n: int) -> int {
    if n >= 0 {
        n / 2
    } else {
        -((-n) / 2)
    }
}

/// Halves `n`, truncating towards zero.
fn half_towards_zero(n: i32) -> (r: i32)
    requires
        n != i32::MIN,
    ensures
        r == div2_trunc(n as int),
{
    if n >= 0 {
        n / 2
    } else {
        -((-n) / 2)
    }
}

/// Hex adjacency is symmetric.
pub proof fn lemma_adjacent_symm(a: AxialCoords, b: AxialCoords)
    requires
        a.in_range(),
        b.in_range(),
    ensures
        a.spec_adjacent(b) == b.spec_adjacent(a),
{
    reveal(AxialCoords::spec_adjacent);
    if a.spec_adjacent(b) {
        let i = choose|i: int| 0 <= i < a.spec_neighbors().len() && a.spec_neighbors()[i] == b;
        let back = if i < 3 { i + 3 } else { i - 3 };
        assert(b.spec_neighbors()[back] == a);
    }
    if b.spec_adjacent(a) {
        let i = choose|i: int| 0 <= i < b.spec_neighbors().len() && b.spec_neighbors()[i] == a;
        let back = if i < 3 { i + 3 } else { i - 3 };
        assert(a.spec_neighbors()[back] == b);
    }
}

/// Every cube coordinate obtained from an axial coordinate satisfies the
/// cube-space invariant `x + y + z == 0`.
pub proof fn lemma_axial_to_cube_valid(a: AxialCoords)
    requires
        a.in_range(),
    ensures
        (CubeCoords { x: a.x, y: a.y, z: (-(a.x + a.y)) as i32 }).valid(),
{
}

/// Converting axial coordinates to cube space and back is the identity.
pub proof fn lemma_axial_cube_round_trip(a: AxialCoords)
    requires
        a.in_range(),
    ensures
        (CubeCoords { x: a.x, y: a.y, z: (-(a.x + a.y)) as i32 }).to_axial_spec() == a,
{
}

/// Converting axial coordinates to doubled space and back is the identity.
pub proof fn lemma_axial_doubled_round_trip(a: AxialCoords)
    requires
        a.in_range(),
    ensures
        spec_doubled_to_axial(spec_axial_to_doubled(a)) == a,
{
    let d = spec_axial_to_doubled(a);
    assert(d.x - d.y == 2 * a.x);
    assert(-(d.x + d.y) == 2 * a.y);
    assert(div2_trunc(2 * a.x) == a.x);
    assert(div2_trunc(2 * a.y) == a.y);
}

impl CubeCoords {
    /// The axial projection, as a spec-level map.
    pub open spec fn to_axial_spec(self) -> AxialCoords {
        AxialCoords { x: self.x, y: self.y }
    }
}

/// The doubled-space image of an axial coordinate, as a spec-level map.
pub open spec fn spec_axial_to_doubled(a: AxialCoords) -> DoubledCoords {
    DoubledCoords { x: (a.x - a.y) as i32, y: (-(a.x + a.y)) as i32 }
}

/// The axial image of a doubled coordinate, as a spec-level map.
pub open spec fn spec_doubled_to_axial(d: DoubledCoords) -> AxialCoords {
    AxialCoords { x: div2_trunc(d.x - d.y) as i32, y: div2_trunc(-(d.x + d.y)) as i32 }
}

} // verus!
