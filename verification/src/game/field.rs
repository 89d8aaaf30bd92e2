//! A single board cell: a piece stack plus an obstruction flag, keyed by
//! its own axial position.

use vstd::prelude::*;
use crate::game::piece::Piece;
use crate::game::player_color::PlayerColor;
use crate::util::{AxialCoords, CubeCoords, DoubledCoords};

verus! {

/// A field on the game board.
#[derive(Debug, Clone, PartialEq, Eq, Hash)]
pub struct Field {
    /// Unpacked axial position.
    pub x: i32,
    pub y: i32,
    /// The piece stack, bottom first.
    pub pieces: Vec<Piece>,
    /// Marks permanently blocked terrain, independent of the stack.
    pub is_obstructed: bool,
}

impl Field {
    /// The field's axial position.
    pub open spec fn acoords(self) -> AxialCoords {
        AxialCoords { x: self.x, y: self.y }
    }

    /// A field is occupied when it is obstructed or holds pieces.
    pub open spec fn spec_occupied(self) -> bool {
        self.is_obstructed || self.pieces@.len() > 0
    }

    /// Observational equality of cells: same position, stack and flag.
    pub open spec fn same_cell(self, other: Field) -> bool {
        &&& self.x == other.x
        &&& self.y == other.y
        &&& self.pieces@ == other.pieces@
        &&& self.is_obstructed == other.is_obstructed
    }

    /// The color of the top-most piece, if any.
    pub open spec fn spec_owner(self) -> Option<PlayerColor> {
        if self.pieces@.len() > 0 {
            Some(self.pieces@.last().owner)
        } else {
            None
        }
    }

    /// Creates a new field.
    pub fn new(coords: AxialCoords, pieces: Vec<Piece>, is_obstructed: bool) -> (r: Self)
        ensures
            r.x == coords.x,
            r.y == coords.y,
            r.pieces == pieces,
            r.is_obstructed == is_obstructed,
    {
        Self { x: coords.x, y: coords.y, pieces, is_obstructed }
    }

    /// Creates a new empty field at the given position.
    pub fn from_coords(coords: AxialCoords) -> (r: Self)
        ensures
            r.acoords() == coords,
            r.pieces@ == Seq::<Piece>::empty(),
            !r.is_obstructed,
    {
        Self { x: coords.x, y: coords.y, pieces: Vec::new(), is_obstructed: false }
    }

    /// Fetches the axial coordinates of the field.
    pub fn coords(&self) -> (r: AxialCoords)
        ensures
            r == self.acoords(),
    {
        AxialCoords { x: self.x, y: self.y }
    }

    /// Fetches the axial coordinates of the field.
    pub fn axial_coords(&self) -> (r: AxialCoords)
        ensures
            r == self.acoords(),
    {
        self.coords()
    }

    /// Fetches the cube coordinates of the field.
    pub fn cube_coords(&self) -> (r: CubeCoords)
        requires
            self.acoords().in_range(),
        ensures
            r.x == self.x,
            r.y == self.y,
            r.z == -(self.x + self.y),
            r.valid(),
    {
        self.coords().to_cube()
    }

    /// Fetches the doubled coordinates of the field.
    pub fn doubled_coords(&self) -> (r: DoubledCoords)
        requires
            self.acoords().in_range(),
        ensures
            r.x == self.x - self.y,
            r.y == -(self.x + self.y),
    {
        self.coords().to_doubled()
    }

    /// Fetches the player color "owning" the field.
    pub fn owner(&self) -> (r: Option<PlayerColor>)
        ensures
            r == self.spec_owner(),
    {
        match self.piece() {
            Some(p) => Some(p.owner),
            None => None,
        }
    }

    /// Tests whether the field is owned by the given color.
    pub fn is_owned_by(&self, color: PlayerColor) -> (r: bool)
        ensures
            r == (self.spec_owner() == Some(color)),
    {
        match self.owner() {
            Some(c) => c == color,
            None => false,
        }
    }

    /// Tests whether the field is (directly) obstructed.
    pub fn is_obstructed(&self) -> (r: bool)
        ensures
            r == self.is_obstructed,
    {
        self.is_obstructed
    }

    /// Tests whether the field is occupied.
    pub fn is_occupied(&self) -> (r: bool)
        ensures
            r == self.spec_occupied(),
    {
        self.is_obstructed || self.has_pieces()
    }

    /// Tests whether the field is not occupied.
    pub fn is_empty(&self) -> (r: bool)
        ensures
            r == !self.spec_occupied(),
    {
        !self.is_occupied()
    }

    /// Fetches the top-most piece.
    pub fn piece(&self) -> (r: Option<Piece>)
        ensures
            r == (if self.pieces@.len() > 0 {
                Some(self.pieces@.last())
            } else {
                None::<Piece>
            }),
    {
        if self.pieces.len() > 0 {
            Some(self.pieces[self.pieces.len() - 1])
        } else {
            None
        }
    }

    /// Tests whether the field contains pieces.
    pub fn has_pieces(&self) -> (r: bool)
        ensures
            r == (self.pieces@.len() > 0),
    {
        self.pieces.len() > 0
    }

    /// Fetches the piece stack.
    pub fn pieces(&self) -> (r: &Vec<Piece>)
        ensures
            r == &self.pieces,
    {
        &self.pieces
    }

    /// An observational copy of the field.
    pub fn duplicate(&self) -> (r: Field)
        ensures
            r.same_cell(*self),
    {
        let mut pieces: Vec<Piece> = Vec::new();
        let mut i: usize = 0;
        while i < self.pieces.len()
            invariant
                i <= self.pieces@.len(),
                pieces@ =~= self.pieces@.subrange(0, i as int),
            decreases self.pieces@.len() - i,
        {
            pieces.push(self.pieces[i]);
            proof {
                assert(pieces@ =~= self.pieces@.subrange(0, i + 1));
            }
            i += 1;
        }
        proof {
            assert(pieces@ =~= self.pieces@);
        }
        Field { x: self.x, y: self.y, pieces, is_obstructed: self.is_obstructed }
    }

    /// Pushes a piece onto the piece stack.
    pub fn push(&mut self, piece: Piece)
        ensures
            final(self).pieces@ == old(self).pieces@.push(piece),
            final(self).x == old(self).x,
            final(self).y == old(self).y,
            final(self).is_obstructed == old(self).is_obstructed,
    {
        self.pieces.push(piece)
    }

    /// Pops a piece from the piece stack or returns `None` if it is empty.
    pub fn pop(&mut self) -> (r: Option<Piece>)
        ensures
            old(self).pieces@.len() == 0 ==> r is None && final(self).pieces@ == old(self).pieces@,
            old(self).pieces@.len() > 0 ==> r == Some(old(self).pieces@.last())
                && final(self).pieces@ == old(self).pieces@.drop_last(),
            final(self).x == old(self).x,
            final(self).y == old(self).y,
            final(self).is_obstructed == old(self).is_obstructed,
    {
        self.pieces.pop()
    }
}

} // verus!
