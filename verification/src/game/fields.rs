//! The collection of board cells, keyed by the position each field carries.

use vstd::prelude::*;
use crate::game::field::Field;
use crate::util::AxialCoords;

verus! {

/// Coordinates that may appear on a board: well inside the range where all
/// coordinate algebra (including neighbors of neighbors) stays exact.
pub open spec fn coords_ok(c: AxialCoords) -> bool {
    -0x3fff_0000 < c.x < 0x3fff_0000 && -0x3fff_0000 < c.y < 0x3fff_0000
}

/// The fields of the board.
#[derive(Debug, Clone, PartialEq, Eq)]
pub struct Fields {
    pub fields: Vec<Field>,
}

impl Fields {
    /// Well-formed field lists hold at most one field per position, and
    /// only positions whose coordinate algebra cannot overflow.
    pub open spec fn wf(self) -> bool {
        &&& forall|i: int| 0 <= i < self.fields@.len() ==> coords_ok(#[trigger] self.fields@[i].acoords())
        &&& forall|i: int, j: int|
            0 <= i < self.fields@.len() && 0 <= j < self.fields@.len() && i != j
                ==> self.fields@[i].acoords() != self.fields@[j].acoords()
    }

    /// Whether some field sits at the given position.
    pub open spec fn spec_contains(self, coords: AxialCoords) -> bool {
        exists|i: int| 0 <= i < self.fields@.len() && self.fields@[i].acoords() == coords
    }

    /// The index of the field at the given position.
    pub open spec fn spec_index_of(self, coords: AxialCoords) -> int {
        choose|i: int| 0 <= i < self.fields@.len() && self.fields@[i].acoords() == coords
    }

    /// The field at the given position.
    pub open spec fn spec_at(self, coords: AxialCoords) -> Field {
        self.fields@[self.spec_index_of(coords)]
    }

    /// Creates an empty collection.
    pub fn new() -> (r: Self)
        ensures
            r.fields@ == Seq::<Field>::empty(),
            r.wf(),
    {
        Self { fields: Vec::new() }
    }

    /// The number of fields.
    pub fn len(&self) -> (r: usize)
        ensures
            r == self.fields@.len(),
    {
        self.fields.len()
    }

    /// Finds the index of the field at the given position.
    pub fn index_of(&self, coords: AxialCoords) -> (r: Option<usize>)
        requires
            self.wf(),
        ensures
            match r {
                Some(i) => i < self.fields@.len() && self.fields@[i as int].acoords() == coords
                    && i == self.spec_index_of(coords) && self.spec_contains(coords),
                None => !self.spec_contains(coords),
            },
    {
        let mut i: usize = 0;
        while i < self.fields.len()
            invariant
                self.wf(),
                0 <= i <= self.fields@.len(),
                forall|j: int| 0 <= j < i ==> self.fields@[j].acoords() != coords,
            decreases self.fields@.len() - i,
        {
            let f = &self.fields[i];
            if f.x == coords.x && f.y == coords.y {
                return Some(i);
            }
            i += 1;
        }
        None
    }

    /// Tests whether a field exists at the given position.
    pub fn contains(&self, coords: AxialCoords) -> (r: bool)
        requires
            self.wf(),
        ensures
            r == self.spec_contains(coords),
    {
        self.index_of(coords).is_some()
    }

    /// Fetches the field at the given position.
    pub fn get(&self, coords: AxialCoords) -> (r: Option<&Field>)
        requires
            self.wf(),
        ensures
            match r {
                Some(f) => self.spec_contains(coords) && *f == self.spec_at(coords)
                    && f.acoords() == coords,
                None => !self.spec_contains(coords),
            },
    {
        match self.index_of(coords) {
            Some(i) => Some(&self.fields[i]),
            None => None,
        }
    }

    /// Mutably borrows the field at the given position. The caller is
    /// responsible for keeping the field's position unchanged.
    pub fn get_mut(&mut self, coords: AxialCoords) -> (r: Option<&mut Field>)
        requires
            old(self).wf(),
        ensures
            match r {
                Some(f) => old(self).spec_contains(coords) && *f == old(self).spec_at(coords)
                    && f.acoords() == coords
                    && final(self).fields@ == old(self).fields@.update(
                        old(self).spec_index_of(coords),
                        *final(f),
                    ),
                None => !old(self).spec_contains(coords) && *final(self) == *old(self),
            },
    {
        match self.index_of(coords) {
            Some(i) => Some(&mut self.fields[i]),
            None => None,
        }
    }

    /// Inserts an empty field at the given position if none exists yet.
    pub fn insert(&mut self, coords: AxialCoords)
        requires
            old(self).wf(),
            coords_ok(coords),
        ensures
            final(self).wf(),
            old(self).spec_contains(coords) ==> *final(self) == *old(self),
            !old(self).spec_contains(coords) ==> {
                &&& final(self).fields@.len() == old(self).fields@.len() + 1
                &&& final(self).fields@.drop_last() == old(self).fields@
                &&& final(self).fields@.last().acoords() == coords
                &&& final(self).fields@.last().pieces@.len() == 0
                &&& !final(self).fields@.last().is_obstructed
            },
            final(self).spec_contains(coords),
            forall|c: AxialCoords| final(self).spec_contains(c)
                <==> old(self).spec_contains(c) || c == coords,
    {
        if !self.contains(coords) {
            let ghost old_fields = self.fields@;
            self.fields.push(Field::from_coords(coords));
            proof {
                assert(self.fields@.drop_last() =~= old_fields);
                assert(self.fields@[old_fields.len() as int].acoords() == coords);
                assert forall|c: AxialCoords| self.spec_contains(c) implies
                    old(self).spec_contains(c) || c == coords by {
                    let i = self.spec_index_of(c);
                    if i < old_fields.len() {
                        assert(old_fields[i].acoords() == c);
                    }
                }
                assert forall|c: AxialCoords| old(self).spec_contains(c) implies
                    self.spec_contains(c) by {
                    let i = old(self).spec_index_of(c);
                    assert(self.fields@[i].acoords() == c);
                }
            }
        }
    }

    /// Read access to the fields.
    pub fn iter(&self) -> (r: &Vec<Field>)
        ensures
            r == &self.fields,
    {
        &self.fields
    }
}

} // verus!
