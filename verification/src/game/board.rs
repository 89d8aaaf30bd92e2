//! The game board: a hex of fields with adjacency queries, swarm
//! connectivity and the sliding rule shared by several piece types.

use itertools::Itertools;
use vstd::prelude::*;
use crate::game::constants::{hex_cell_count, hex_count_upto, hex_row_len};
use crate::game::field::Field;
use crate::game::fields::{Fields, coords_ok};
use crate::game::piece::Piece;
use crate::game::piece_type::PieceType;
use crate::game::player_color::PlayerColor;
use crate::util::AxialCoords;

verus! {

/// The game board which is a symmetric hex grid with a side length of
/// [`BOARD_RADIUS`] fields.
#[derive(Debug, Clone, PartialEq, Eq)]
pub struct Board {
    pub fields: Fields,
}

/// Whether an axial coordinate lies in the centered hexagon whose rings
/// reach out `inner` steps from the origin.
pub open spec fn in_hex(inner: int, c: AxialCoords) -> bool {
    &&& -inner <= c.y <= inner
    &&& (if -inner - c.y >= -inner { -inner - c.y } else { -inner }) <= c.x
    &&& c.x <= (if inner - c.y <= inner { inner - c.y } else { inner })
}

impl Board {
    /// The fields as a sequence.
    pub open spec fn s(self) -> Seq<Field> {
        self.fields.fields@
    }

    /// A well-formed board: one field per position, positions in range.
    pub open spec fn wf(self) -> bool {
        self.fields.wf()
    }

    /// Whether the board has a field at the given position.
    pub open spec fn has(self, c: AxialCoords) -> bool {
        self.fields.spec_contains(c)
    }

    /// The field at a position the board contains.
    pub open spec fn at(self, c: AxialCoords) -> Field {
        self.fields.spec_at(c)
    }

    /// Whether the cell at `c` is occupied; missing cells count as occupied.
    pub open spec fn occupied_at(self, c: AxialCoords) -> bool {
        !self.has(c) || self.at(c).spec_occupied()
    }

    /// Whether the cell exists and is empty.
    pub open spec fn empty_at(self, c: AxialCoords) -> bool {
        self.has(c) && !self.at(c).spec_occupied()
    }

    /// Whether the cell exists and holds at least one piece.
    pub open spec fn pieces_at(self, c: AxialCoords) -> bool {
        self.has(c) && self.at(c).pieces@.len() > 0
    }

    /// Whether the cell exists and its top piece belongs to `color`.
    pub open spec fn owned_at(self, c: AxialCoords, color: PlayerColor) -> bool {
        self.has(c) && self.at(c).spec_owner() == Some(color)
    }

    /// Whether any board cell holds a piece.
    pub open spec fn spec_has_pieces(self) -> bool {
        exists|i: int| 0 <= i < self.s().len() && self.s()[i].pieces@.len() > 0
    }

    /// Whether some stack on the board contains the given piece.
    pub open spec fn spec_contains_piece(self, piece: Piece) -> bool {
        exists|i: int, j: int|
            0 <= i < self.s().len() && 0 <= j < self.s()[i].pieces@.len()
                && self.s()[i].pieces@[j] == piece
    }

    /// Whether some neighbor cell of `c` is owned by `color`.
    pub open spec fn next_to(self, c: AxialCoords, color: PlayerColor) -> bool {
        exists|d: AxialCoords| c.spec_adjacent(d) && self.owned_at(d, color)
    }

    /// Whether some neighbor cell of `c` holds a piece.
    pub open spec fn next_to_piece(self, c: AxialCoords) -> bool {
        exists|d: AxialCoords| c.spec_adjacent(d) && self.pieces_at(d)
    }

    /// Creates an empty board.
    pub fn new() -> (r: Self)
        ensures
            r.wf(),
            r.s().len() == 0,
    {
        Self { fields: Fields::new() }
    }

    /// Creates a new hexagonal board. In addition to the provided fields,
    /// the board is padded with empty fields up to the given radius.
    pub fn filling_radius(radius: usize, fields: Vec<Field>) -> (r: Self)
        requires
            1 <= radius <= 4096,
            forall|i: int| 0 <= i < fields@.len() ==> coords_ok(#[trigger] fields@[i].acoords()),
        ensures
            r.wf(),
            forall|c: AxialCoords| r.has(c)
                <==> in_hex(radius - 1, c)
                    || exists|i: int| 0 <= i < fields@.len() && (#[trigger] fields@[i].acoords()) == c,
            forall|i: int| 0 <= i < fields@.len()
                && (forall|j: int| 0 <= j < i ==> fields@[j].acoords() != fields@[i].acoords())
                ==> r.at(#[trigger] fields@[i].acoords()).same_cell(fields@[i]),
            forall|c: AxialCoords| r.has(c)
                && !(exists|i: int| 0 <= i < fields@.len() && (#[trigger] fields@[i].acoords()) == c)
                ==> r.at(c).pieces@.len() == 0 && !r.at(c).is_obstructed,
    {
        let mut board = Self { fields: Fields::new() };
        let mut k: usize = 0;
        while k < fields.len()
            invariant
                board.wf(),
                k <= fields@.len(),
                forall|i: int| 0 <= i < fields@.len() ==> coords_ok(#[trigger] fields@[i].acoords()),
                forall|c: AxialCoords| board.has(c)
                    <==> exists|i: int| 0 <= i < k && (#[trigger] fields@[i].acoords()) == c,
                forall|i: int| 0 <= i < k
                    && (forall|j: int| 0 <= j < i ==> fields@[j].acoords() != fields@[i].acoords())
                    ==> board.at(#[trigger] fields@[i].acoords()).same_cell(fields@[i]),
            decreases fields@.len() - k,
        {
            board.push_field(&fields[k]);
            k += 1;
        }
        board.pad_to_radius(radius);
        board
    }

    /// Creates a new hexagonal board of empty fields.
    pub fn from_radius(radius: usize) -> (r: Self)
        requires
            1 <= radius <= 4096,
        ensures
            r.wf(),
            forall|c: AxialCoords| r.has(c) <==> in_hex(radius - 1, c),
            forall|c: AxialCoords| r.has(c) ==> r.at(c).pieces@.len() == 0 && !r.at(c).is_obstructed,
            r.s().len() == hex_cell_count(radius as nat),
    {
        let mut board = Self { fields: Fields::new() };
        board.pad_to_radius(radius);
        proof {
            crate::game::constants::lemma_hex_count_matches(radius as int);
        }
        board
    }

    /// Adds a copy of the given field unless its position is taken.
    pub(crate) fn push_field(&mut self, field: &Field)
        requires
            old(self).wf(),
            coords_ok(field.acoords()),
        ensures
            final(self).wf(),
            forall|c: AxialCoords| final(self).has(c)
                <==> old(self).has(c) || c == field.acoords(),
            forall|c: AxialCoords| old(self).has(c)
                ==> #[trigger] final(self).at(c) == old(self).at(c),
            !old(self).has(field.acoords()) ==> final(self).at(field.acoords()).same_cell(*field),
    {
        if self.fields.contains(field.coords()) {
            return;
        }
        let ghost old_fields = self.fields.fields@;
        let copy = Field::new(field.coords(), clone_pieces(&field.pieces), field.is_obstructed);
        assert(copy.same_cell(*field));
        self.fields.fields.push(copy);
        proof {
            assert(self.s()[old_fields.len() as int].acoords() == field.acoords());
            assert forall|c: AxialCoords| self.has(c) implies
                old(self).has(c) || c == field.acoords() by {
                let i = self.fields.spec_index_of(c);
                if i < old_fields.len() {
                    assert(old_fields[i].acoords() == c);
                }
            }
            assert forall|c: AxialCoords| old(self).has(c) || c == field.acoords() implies
                self.has(c) by {
                if old(self).has(c) {
                    let i = old(self).fields.spec_index_of(c);
                    assert(self.s()[i].acoords() == c);
                } else {
                    assert(self.s()[old_fields.len() as int].acoords() == c);
                }
            }
            assert forall|c: AxialCoords| old(self).has(c) implies
                #[trigger] self.at(c) == old(self).at(c) by {
                let i = old(self).fields.spec_index_of(c);
                assert(self.s()[i].acoords() == c);
                assert(self.fields.spec_index_of(c) == i);
            }
            if !old(self).has(field.acoords()) {
                assert(self.fields.spec_index_of(field.acoords()) == old_fields.len());
            }
        }
    }

    /// Pads the board with empty fields up to the given radius.
    #[verifier::loop_isolation(false)]
    fn pad_to_radius(&mut self, radius: usize)
        requires
            old(self).wf(),
            1 <= radius <= 4096,
        ensures
            final(self).wf(),
            forall|c: AxialCoords| final(self).has(c) <==> old(self).has(c) || in_hex(radius - 1, c),
            forall|c: AxialCoords| old(self).has(c)
                ==> #[trigger] final(self).at(c) == old(self).at(c),
            forall|c: AxialCoords| final(self).has(c) && !old(self).has(c)
                ==> final(self).at(c).pieces@.len() == 0 && !final(self).at(c).is_obstructed,
            old(self).s().len() == 0
                ==> final(self).s().len() == hex_count_upto(radius - 1, radius - 1),
    {
        let ghost orig = *old(self);
        let inner: i32 = (radius as i32) - 1;
        let mut y: i32 = -inner;
        while y <= inner
            invariant
                self.wf(),
                1 <= radius <= 4096,
                inner == radius - 1,
                -inner <= y <= inner + 1,
                forall|c: AxialCoords| #![trigger self.has(c)] self.has(c)
                    <==> orig.has(c) || (in_hex(inner as int, c) && c.y < y),
                forall|c: AxialCoords| orig.has(c)
                    ==> #[trigger] self.at(c) == orig.at(c),
                forall|c: AxialCoords| self.has(c) && !orig.has(c)
                    ==> self.at(c).pieces@.len() == 0 && !self.at(c).is_obstructed,
                orig.s().len() == 0
                    ==> self.s().len() == hex_count_upto(inner as int, y - 1),
            decreases inner + 1 - y,
        {
            let x_lo: i32 = if -inner - y >= -inner { -inner - y } else { -inner };
            let x_hi: i32 = if inner - y <= inner { inner - y } else { inner };
            let mut x: i32 = x_lo;
            proof {
                assert forall|c: AxialCoords| self.has(c) implies
                    orig.has(c) || (in_hex(inner as int, c) && c.y < y)
                        || (in_hex(inner as int, c) && c.y == y && c.x < x) by {}
                assert forall|c: AxialCoords| orig.has(c) || (in_hex(inner as int, c) && c.y < y)
                        || (in_hex(inner as int, c) && c.y == y && c.x < x) implies
                    self.has(c) by {}
            }
            while x <= x_hi
                invariant
                    self.wf(),
                    1 <= radius <= 4096,
                    inner == radius - 1,
                    -inner <= y <= inner,
                    x_lo == (if -inner - y >= -inner { -inner - y } else { -inner as int }),
                    x_hi == (if inner - y <= inner { inner - y } else { inner as int }),
                    x_lo <= x <= x_hi + 1,
                    forall|c: AxialCoords| #![trigger self.has(c)] self.has(c)
                        <==> orig.has(c) || (in_hex(inner as int, c) && c.y < y)
                            || (in_hex(inner as int, c) && c.y == y && c.x < x),
                    forall|c: AxialCoords| orig.has(c)
                        ==> #[trigger] self.at(c) == orig.at(c),
                    forall|c: AxialCoords| self.has(c) && !orig.has(c)
                        ==> self.at(c).pieces@.len() == 0 && !self.at(c).is_obstructed,
                    orig.s().len() == 0
                        ==> self.s().len() == hex_count_upto(inner as int, y - 1) + (x - x_lo),
                decreases x_hi + 1 - x,
            {
                let c = AxialCoords::new(x, y);
                let ghost pre = *self;
                let had = self.fields.contains(c);
                proof {
                    assert(had == self.has(c));
                    if orig.s().len() == 0 {
                        assert(!had);
                    }
                }
                self.fields.insert(c);
                proof {
                    assert forall|cc: AxialCoords| pre.has(cc) implies
                        #[trigger] self.at(cc) == pre.at(cc) by {
                        if !had {
                            let i = pre.fields.spec_index_of(cc);
                            assert(pre.s()[i].acoords() == cc);
                            assert(self.s()[i].acoords() == cc);
                            assert(self.fields.spec_index_of(cc) == i);
                        }
                    }
                    if !had {
                        let i = self.fields.spec_index_of(c);
                        assert(self.s()[self.s().len() - 1].acoords() == c);
                        assert(i == self.s().len() - 1);
                        assert(self.at(c).pieces@.len() == 0 && !self.at(c).is_obstructed);
                    }
                    assert(in_hex(inner as int, c));
                    assert forall|cc: AxialCoords| #![trigger self.has(cc)] self.has(cc)
                        <==> orig.has(cc) || (in_hex(inner as int, cc) && cc.y < y)
                            || (in_hex(inner as int, cc) && cc.y == y && cc.x < x + 1) by {
                        assert(pre.has(cc) <==> orig.has(cc)
                            || (in_hex(inner as int, cc) && cc.y < y)
                            || (in_hex(inner as int, cc) && cc.y == y && cc.x < x));
                        assert(self.has(cc) <==> pre.has(cc) || cc == c);
                    }
                }
                x += 1;
            }
            proof {
                assert(hex_count_upto(inner as int, y as int)
                    == hex_count_upto(inner as int, y - 1) + hex_row_len(inner as int, y as int));
                assert forall|c: AxialCoords| (in_hex(inner as int, c) && c.y < y + 1) implies
                    (in_hex(inner as int, c) && c.y < y)
                        || (in_hex(inner as int, c) && c.y == y && c.x < x) by {}
            }
            y += 1;
        }
        proof {
            assert forall|c: AxialCoords| in_hex(inner as int, c) implies c.y < y by {}
        }
    }
}

impl Board {
    /// Fetches a reference to the field at the given coordinates.
    pub fn field(&self, coords: AxialCoords) -> (r: Option<&Field>)
        requires
            self.wf(),
        ensures
            match r {
                Some(f) => self.has(coords) && *f == self.at(coords) && f.acoords() == coords,
                None => !self.has(coords),
            },
    {
        self.fields.get(coords)
    }

    /// Mutably borrows a field. The caller must keep the field's position
    /// unchanged for the board to stay well-formed.
    pub fn field_mut(&mut self, coords: AxialCoords) -> (r: Option<&mut Field>)
        requires
            old(self).wf(),
        ensures
            match r {
                Some(f) => old(self).has(coords) && *f == old(self).at(coords)
                    && f.acoords() == coords
                    && final(self).fields.fields@ == old(self).fields.fields@.update(
                        old(self).fields.spec_index_of(coords),
                        *final(f),
                    ),
                None => !old(self).has(coords) && *final(self) == *old(self),
            },
    {
        self.fields.get_mut(coords)
    }

    /// Tests whether a given position is occupied. Positions outside the
    /// board count as occupied.
    pub fn is_occupied(&self, coords: AxialCoords) -> (r: bool)
        requires
            self.wf(),
        ensures
            r == self.occupied_at(coords),
    {
        match self.field(coords) {
            Some(f) => f.is_occupied(),
            None => true,
        }
    }

    /// Tests whether the board contains the given coordinate.
    pub fn contains_coords(&self, coords: AxialCoords) -> (r: bool)
        requires
            self.wf(),
        ensures
            r == self.has(coords),
    {
        self.fields.contains(coords)
    }

    /// Fetches all fields.
    pub fn fields(&self) -> (r: &Vec<Field>)
        ensures
            r == &self.fields.fields,
    {
        &self.fields.fields
    }

    /// Tests whether the board has any pieces.
    pub fn has_pieces(&self) -> (r: bool)
        ensures
            r == self.spec_has_pieces(),
    {
        let mut i: usize = 0;
        while i < self.fields.fields.len()
            invariant
                i <= self.s().len(),
                forall|j: int| 0 <= j < i ==> self.s()[j].pieces@.len() == 0,
            decreases self.s().len() - i,
        {
            if self.fields.fields[i].has_pieces() {
                return true;
            }
            i += 1;
        }
        false
    }

    /// Fetches the (existing) neighbor fields on the board.
    pub fn neighbors(&self, coords: AxialCoords) -> (r: Vec<&Field>)
        requires
            self.wf(),
            coords.in_range(),
        ensures
            forall|k: int| 0 <= k < r@.len()
                ==> coords.spec_adjacent((#[trigger] r@[k]).acoords())
                    && self.has(r@[k].acoords()) && *r@[k] == self.at(r@[k].acoords()),
            forall|d: AxialCoords| #[trigger] coords.spec_adjacent(d) && self.has(d)
                ==> exists|k: int| 0 <= k < r@.len() && (#[trigger] r@[k]).acoords() == d,
            forall|k1: int, k2: int| 0 <= k1 < k2 < r@.len()
                ==> r@[k1].acoords() != r@[k2].acoords(),
    {
        let around = coords.coord_neighbors();
        let mut r: Vec<&Field> = Vec::new();
        let mut i: usize = 0;
        while i < around.len()
            invariant
                self.wf(),
                coords.in_range(),
                around@ == coords.spec_neighbors(),
                i <= 6,
                forall|k: int| 0 <= k < r@.len()
                    ==> coords.spec_adjacent((#[trigger] r@[k]).acoords())
                        && self.has(r@[k].acoords()) && *r@[k] == self.at(r@[k].acoords()),
                forall|j: int| 0 <= j < i && self.has(#[trigger] around@[j])
                    ==> exists|k: int| 0 <= k < r@.len() && (#[trigger] r@[k]).acoords() == around@[j],
                forall|k: int| 0 <= k < r@.len()
                    ==> exists|j: int| 0 <= j < i && (#[trigger] r@[k]).acoords() == around@[j],
                forall|k1: int, k2: int| 0 <= k1 < k2 < r@.len()
                    ==> r@[k1].acoords() != r@[k2].acoords(),
            decreases around@.len() - i,
        {
            let c = around[i];
            let ghost rpre = r@;
            match self.fields.get(c) {
                Some(f) => {
                    r.push(f);
                    proof {
                        assert(coords.spec_adjacent(c)) by {
                            reveal(AxialCoords::spec_adjacent);
                            assert(coords.spec_neighbors()[i as int] == c);
                        }
                        assert(r@[rpre.len() as int].acoords() == c);
                        assert(forall|k: int| 0 <= k < rpre.len() ==> r@[k] == rpre[k]);
                        lemma_neighbors_distinct(coords);
                    }
                },
                None => {},
            }
            i += 1;
        }
        proof {
            assert forall|d: AxialCoords| #[trigger] coords.spec_adjacent(d) && self.has(d) implies
                exists|k: int| 0 <= k < r@.len() && (#[trigger] r@[k]).acoords() == d by {
                reveal(AxialCoords::spec_adjacent);
                let j = choose|j: int| 0 <= j < coords.spec_neighbors().len()
                    && coords.spec_neighbors()[j] == d;
                assert(around@[j] == d);
            }
        }
        r
    }

    /// Fetches the unoccupied neighbor fields.
    pub fn empty_neighbors(&self, coords: AxialCoords) -> (r: Vec<&Field>)
        requires
            self.wf(),
            coords.in_range(),
        ensures
            forall|k: int| 0 <= k < r@.len()
                ==> coords.spec_adjacent((#[trigger] r@[k]).acoords())
                    && self.empty_at(r@[k].acoords()) && *r@[k] == self.at(r@[k].acoords()),
            forall|d: AxialCoords| #[trigger] coords.spec_adjacent(d) && self.empty_at(d)
                ==> exists|k: int| 0 <= k < r@.len() && (#[trigger] r@[k]).acoords() == d,
    {
        let nbs = self.neighbors(coords);
        let mut r: Vec<&Field> = Vec::new();
        let mut i: usize = 0;
        while i < nbs.len()
            invariant
                self.wf(),
                coords.in_range(),
                forall|k: int| 0 <= k < nbs@.len()
                    ==> coords.spec_adjacent((#[trigger] nbs@[k]).acoords())
                        && self.has(nbs@[k].acoords()) && *nbs@[k] == self.at(nbs@[k].acoords()),
                forall|d: AxialCoords| #[trigger] coords.spec_adjacent(d) && self.has(d)
                    ==> exists|k: int| 0 <= k < nbs@.len() && (#[trigger] nbs@[k]).acoords() == d,
                i <= nbs@.len(),
                forall|k: int| 0 <= k < r@.len()
                    ==> coords.spec_adjacent((#[trigger] r@[k]).acoords())
                        && self.empty_at(r@[k].acoords()) && *r@[k] == self.at(r@[k].acoords()),
                forall|j: int| 0 <= j < i && self.empty_at((#[trigger] nbs@[j]).acoords())
                    ==> exists|k: int| 0 <= k < r@.len()
                        && (#[trigger] r@[k]).acoords() == nbs@[j].acoords(),
            decreases nbs@.len() - i,
        {
            let f = nbs[i];
            let ghost rpre = r@;
            if f.is_empty() {
                r.push(f);
                proof {
                    assert(r@[rpre.len() as int].acoords() == nbs@[i as int].acoords());
                    assert(forall|k: int| 0 <= k < rpre.len() ==> r@[k] == rpre[k]);
                }
            }
            i += 1;
        }
        proof {
            assert forall|d: AxialCoords| #[trigger] coords.spec_adjacent(d) && self.empty_at(d)
                implies exists|k: int| 0 <= k < r@.len() && (#[trigger] r@[k]).acoords() == d by {
                assert(self.has(d));
                let j = choose|j: int| 0 <= j < nbs@.len() && (#[trigger] nbs@[j]).acoords() == d;
                assert(self.empty_at(nbs@[j].acoords()));
            }
        }
        r
    }

    /// Fetches all fields owned by the given color: one entry for each
    /// such cell, and on a well-formed board no position twice.
    pub fn fields_owned_by(&self, color: PlayerColor) -> (r: Vec<&Field>)
        ensures
            forall|k: int| #![trigger r@[k]] 0 <= k < r@.len()
                ==> r@[k].spec_owner() == Some(color)
                    && exists|i: int| 0 <= i < self.s().len() && *r@[k] == self.s()[i],
            forall|i: int| #![trigger self.s()[i]] 0 <= i < self.s().len()
                && self.s()[i].spec_owner() == Some(color)
                ==> exists|k: int| 0 <= k < r@.len() && *r@[k] == self.s()[i],
            self.wf() ==> forall|k1: int, k2: int| 0 <= k1 < k2 < r@.len()
                ==> r@[k1].acoords() != r@[k2].acoords(),
    {
        let mut r: Vec<&Field> = Vec::new();
        let ghost mut src: Seq<int> = Seq::empty();
        let mut i: usize = 0;
        while i < self.fields.fields.len()
            invariant
                i <= self.s().len(),
                src.len() == r@.len(),
                forall|k: int| #![trigger src[k]] 0 <= k < src.len()
                    ==> 0 <= src[k] < i && *r@[k] == self.s()[src[k]],
                forall|k1: int, k2: int| 0 <= k1 < k2 < src.len() ==> src[k1] < src[k2],
                forall|k: int| #![trigger r@[k]] 0 <= k < r@.len()
                    ==> r@[k].spec_owner() == Some(color)
                        && exists|j: int| 0 <= j < self.s().len() && *r@[k] == self.s()[j],
                forall|j: int| #![trigger self.s()[j]] 0 <= j < i
                    && self.s()[j].spec_owner() == Some(color)
                    ==> exists|k: int| 0 <= k < r@.len() && *r@[k] == self.s()[j],
            decreases self.s().len() - i,
        {
            let f = &self.fields.fields[i];
            let ghost rpre = r@;
            proof {
                assert(*f == self.s()[i as int]);
            }
            if f.is_owned_by(color) {
                r.push(f);
                proof {
                    src = src.push(i as int);
                    assert(*r@[rpre.len() as int] == self.s()[i as int]);
                    assert(forall|k: int| 0 <= k < rpre.len() ==> r@[k] == rpre[k]);
                }
            }
            i += 1;
        }
        proof {
            if self.wf() {
                assert forall|k1: int, k2: int| 0 <= k1 < k2 < r@.len() implies
                    r@[k1].acoords() != r@[k2].acoords() by {
                    assert(*r@[k1] == self.s()[src[k1]]);
                    assert(*r@[k2] == self.s()[src[k2]]);
                    assert(src[k1] < src[k2]);
                }
            }
        }
        r
    }

    /// Fetches all occupied fields.
    pub fn occupied_fields(&self) -> (r: Vec<&Field>)
        requires
            self.wf(),
        ensures
            forall|k: int| #![trigger r@[k]] 0 <= k < r@.len()
                ==> r@[k].spec_occupied() && self.has(r@[k].acoords())
                    && *r@[k] == self.at(r@[k].acoords()),
            forall|c: AxialCoords| self.has(c) && self.at(c).spec_occupied()
                ==> exists|k: int| 0 <= k < r@.len() && (#[trigger] r@[k]).acoords() == c,
    {
        let mut r: Vec<&Field> = Vec::new();
        let mut i: usize = 0;
        while i < self.fields.fields.len()
            invariant
                self.wf(),
                i <= self.s().len(),
                forall|k: int| #![trigger r@[k]] 0 <= k < r@.len()
                    ==> r@[k].spec_occupied() && self.has(r@[k].acoords())
                        && *r@[k] == self.at(r@[k].acoords()),
                forall|j: int| #![trigger self.s()[j]] 0 <= j < i
                    && self.s()[j].spec_occupied()
                    ==> exists|k: int| 0 <= k < r@.len()
                        && (#[trigger] r@[k]).acoords() == self.s()[j].acoords(),
            decreases self.s().len() - i,
        {
            let f = &self.fields.fields[i];
            let ghost rpre = r@;
            proof {
                assert(*f == self.s()[i as int]);
                assert(self.fields.spec_index_of(f.acoords()) == i as int);
            }
            if f.is_occupied() {
                r.push(f);
                proof {
                    assert(r@[rpre.len() as int].acoords() == self.s()[i as int].acoords());
                    assert(forall|k: int| 0 <= k < rpre.len() ==> r@[k] == rpre[k]);
                }
            }
            i += 1;
        }
        proof {
            assert forall|c: AxialCoords| self.has(c) && self.at(c).spec_occupied() implies
                exists|k: int| 0 <= k < r@.len() && (#[trigger] r@[k]).acoords() == c by {
                let j = self.fields.spec_index_of(c);
                assert(0 <= j < self.s().len() && self.s()[j].acoords() == c);
                assert(self.s()[j] == self.at(c));
            }
        }
        r
    }

    /// Fetches all empty fields.
    pub fn empty_fields(&self) -> (r: Vec<&Field>)
        requires
            self.wf(),
        ensures
            forall|k: int| #![trigger r@[k]] 0 <= k < r@.len()
                ==> !r@[k].spec_occupied() && self.has(r@[k].acoords())
                    && *r@[k] == self.at(r@[k].acoords()),
            forall|c: AxialCoords| self.has(c) && !self.at(c).spec_occupied()
                ==> exists|k: int| 0 <= k < r@.len() && (#[trigger] r@[k]).acoords() == c,
    {
        let mut r: Vec<&Field> = Vec::new();
        let mut i: usize = 0;
        while i < self.fields.fields.len()
            invariant
                self.wf(),
                i <= self.s().len(),
                forall|k: int| #![trigger r@[k]] 0 <= k < r@.len()
                    ==> !r@[k].spec_occupied() && self.has(r@[k].acoords())
                        && *r@[k] == self.at(r@[k].acoords()),
                forall|j: int| #![trigger self.s()[j]] 0 <= j < i
                    && !self.s()[j].spec_occupied()
                    ==> exists|k: int| 0 <= k < r@.len()
                        && (#[trigger] r@[k]).acoords() == self.s()[j].acoords(),
            decreases self.s().len() - i,
        {
            let f = &self.fields.fields[i];
            let ghost rpre = r@;
            proof {
                assert(*f == self.s()[i as int]);
                assert(self.fields.spec_index_of(f.acoords()) == i as int);
            }
            if f.is_empty() {
                r.push(f);
                proof {
                    assert(r@[rpre.len() as int].acoords() == self.s()[i as int].acoords());
                    assert(forall|k: int| 0 <= k < rpre.len() ==> r@[k] == rpre[k]);
                }
            }
            i += 1;
        }
        proof {
            assert forall|c: AxialCoords| self.has(c) && !self.at(c).spec_occupied() implies
                exists|k: int| 0 <= k < r@.len() && (#[trigger] r@[k]).acoords() == c by {
                let j = self.fields.spec_index_of(c);
                assert(0 <= j < self.s().len() && self.s()[j].acoords() == c);
                assert(self.s()[j] == self.at(c));
            }
        }
        r
    }

    /// Tests whether the bee of the given color has been placed anywhere
    /// in some stack on the board.
    pub fn has_placed_bee(&self, color: PlayerColor) -> (r: bool)
        ensures
            r == self.spec_contains_piece(Piece { owner: color, piece_type: PieceType::Bee }),
    {
        let bee = Piece::new(color, PieceType::Bee);
        let mut i: usize = 0;
        while i < self.fields.fields.len()
            invariant
                bee == (Piece { owner: color, piece_type: PieceType::Bee }),
                i <= self.s().len(),
                forall|i2: int, j2: int|
                    0 <= i2 < i && 0 <= j2 < self.s()[i2].pieces@.len()
                        ==> self.s()[i2].pieces@[j2] != bee,
            decreases self.s().len() - i,
        {
            let stack = &self.fields.fields[i].pieces;
            let mut j: usize = 0;
            while j < stack.len()
                invariant
                    bee == (Piece { owner: color, piece_type: PieceType::Bee }),
                    i < self.s().len(),
                    stack == &self.s()[i as int].pieces,
                    j <= stack@.len(),
                    forall|j2: int| 0 <= j2 < j ==> stack@[j2] != bee,
                decreases stack@.len() - j,
            {
                if stack[j].owner == bee.owner && stack[j].piece_type == bee.piece_type {
                    assert(self.s()[i as int].pieces@[j as int] == bee);
                    return true;
                }
                j += 1;
            }
            i += 1;
        }
        false
    }

    /// Tests whether the field at the given coordinates is next to a
    /// field owned by the given color.
    pub fn is_next_to(&self, color: PlayerColor, coords: AxialCoords) -> (r: bool)
        requires
            self.wf(),
            coords.in_range(),
        ensures
            r == self.next_to(coords, color),
    {
        let nbs = self.neighbors(coords);
        let mut i: usize = 0;
        while i < nbs.len()
            invariant
                self.wf(),
                coords.in_range(),
                forall|k: int| 0 <= k < nbs@.len()
                    ==> coords.spec_adjacent((#[trigger] nbs@[k]).acoords())
                        && self.has(nbs@[k].acoords()) && *nbs@[k] == self.at(nbs@[k].acoords()),
                forall|d: AxialCoords| #[trigger] coords.spec_adjacent(d) && self.has(d)
                    ==> exists|k: int| 0 <= k < nbs@.len() && (#[trigger] nbs@[k]).acoords() == d,
                i <= nbs@.len(),
                forall|k: int| 0 <= k < i
                    ==> (#[trigger] nbs@[k]).spec_owner() != Some(color),
            decreases nbs@.len() - i,
        {
            if nbs[i].is_owned_by(color) {
                proof {
                    let d = nbs@[i as int].acoords();
                    assert(self.owned_at(d, color));
                }
                return true;
            }
            i += 1;
        }
        proof {
            if self.next_to(coords, color) {
                let d = choose|d: AxialCoords| coords.spec_adjacent(d) && self.owned_at(d, color);
                let k = choose|k: int| 0 <= k < nbs@.len() && (#[trigger] nbs@[k]).acoords() == d;
                assert(nbs@[k].spec_owner() == Some(color));
            }
        }
        false
    }

    /// Tests whether the field at the given coordinates is adjacent to a
    /// field holding pieces.
    pub fn is_next_to_piece(&self, coords: AxialCoords) -> (r: bool)
        requires
            self.wf(),
            coords.in_range(),
        ensures
            r == self.next_to_piece(coords),
    {
        let nbs = self.neighbors(coords);
        let mut i: usize = 0;
        while i < nbs.len()
            invariant
                self.wf(),
                coords.in_range(),
                forall|k: int| 0 <= k < nbs@.len()
                    ==> coords.spec_adjacent((#[trigger] nbs@[k]).acoords())
                        && self.has(nbs@[k].acoords()) && *nbs@[k] == self.at(nbs@[k].acoords()),
                forall|d: AxialCoords| #[trigger] coords.spec_adjacent(d) && self.has(d)
                    ==> exists|k: int| 0 <= k < nbs@.len() && (#[trigger] nbs@[k]).acoords() == d,
                i <= nbs@.len(),
                forall|k: int| 0 <= k < i ==> (#[trigger] nbs@[k]).pieces@.len() == 0,
            decreases nbs@.len() - i,
        {
            if nbs[i].has_pieces() {
                proof {
                    let d = nbs@[i as int].acoords();
                    assert(self.pieces_at(d));
                }
                return true;
            }
            i += 1;
        }
        proof {
            if self.next_to_piece(coords) {
                let d = choose|d: AxialCoords| coords.spec_adjacent(d) && self.pieces_at(d);
                let k = choose|k: int| 0 <= k < nbs@.len() && (#[trigger] nbs@[k]).acoords() == d;
                assert(nbs@[k].pieces@.len() > 0);
            }
        }
        false
    }
}

impl Board {
    /// Whether `d` is an on-board common neighbor of `a` and `b`.
    pub open spec fn is_shared_nb(self, a: AxialCoords, b: AxialCoords, d: AxialCoords) -> bool {
        a.spec_adjacent(d) && b.spec_adjacent(d) && self.has(d)
    }

    /// Whether the `i`-th neighbor of `a` is an on-board common neighbor
    /// of `a` and `b`. Every common neighbor of the two cells appears this
    /// way, since it must be adjacent to `a`.
    pub open spec fn shared_at(self, a: AxialCoords, b: AxialCoords, i: int) -> bool {
        b.spec_adjacent(a.spec_neighbors()[i]) && self.has(a.spec_neighbors()[i])
    }

    /// The number of on-board common neighbors of `a` and `b` among the
    /// first `n` neighbors of `a`.
    pub open spec fn count_shared_upto(self, a: AxialCoords, b: AxialCoords, n: int) -> int
        decreases n,
    {
        if n <= 0 {
            0
        } else {
            self.count_shared_upto(a, b, n - 1) + if self.shared_at(a, b, n - 1) {
                1int
            } else {
                0int
            }
        }
    }

    /// The number of on-board common neighbors of `a` and `b`.
    pub open spec fn count_shared(self, a: AxialCoords, b: AxialCoords) -> int {
        self.count_shared_upto(a, b, 6)
    }

    /// Whether the cell still holds a piece once the dragged piece, whose
    /// start cell is named by `exception`, is thought away.
    pub open spec fn eff_pieces_at(self, exception: Option<AxialCoords>, d: AxialCoords) -> bool {
        self.has(d) && self.at(d).pieces@.len() >= (if exception == Some(d) {
            2int
        } else {
            1int
        })
    }

    /// Whether the cell counts as free once the dragged piece is thought
    /// away: on the board, not obstructed, and without remaining pieces.
    pub open spec fn eff_empty_at(self, exception: Option<AxialCoords>, d: AxialCoords) -> bool {
        self.has(d) && !self.at(d).is_obstructed && !self.eff_pieces_at(exception, d)
    }

    /// The sliding rule: a piece may slip between `a` and `b` when the gap
    /// is not squeezed shut (a single common neighbor, or a free one) and
    /// the move stays in contact with the swarm (an occupied one).
    pub open spec fn can_move_between_spec(
        self,
        exception: Option<AxialCoords>,
        a: AxialCoords,
        b: AxialCoords,
    ) -> bool {
        &&& (self.count_shared(a, b) == 1 || exists|i: int|
            0 <= i < 6 && #[trigger] self.shared_at(a, b, i)
                && self.eff_empty_at(exception, a.spec_neighbors()[i]))
        &&& exists|i: int|
            0 <= i < 6 && #[trigger] self.shared_at(a, b, i)
                && self.eff_pieces_at(exception, a.spec_neighbors()[i])
    }

    /// A legal one-step crawl from `c` to `d` for sliding pieces.
    pub open spec fn step_ok(
        self,
        exception: Option<AxialCoords>,
        c: AxialCoords,
        d: AxialCoords,
    ) -> bool {
        c.spec_adjacent(d) && self.empty_at(d) && self.can_move_between_spec(exception, c, d)
    }

    /// An empty cell on the swarm's outer boundary: adjacent to at least
    /// one occupied cell.
    pub open spec fn boundary_at(self, c: AxialCoords) -> bool {
        self.empty_at(c) && exists|d: AxialCoords|
            #[trigger] c.spec_adjacent(d) && self.has(d) && self.at(d).spec_occupied()
    }

    /// Finds the intersection of `a`'s and `b`'s on-board neighbors.
    pub fn shared_neighbors(&self, a: AxialCoords, b: AxialCoords) -> (r: Vec<&Field>)
        requires
            self.wf(),
            a.in_range(),
            b.in_range(),
        ensures
            forall|k: int| #![trigger r@[k]] 0 <= k < r@.len()
                ==> self.is_shared_nb(a, b, r@[k].acoords())
                    && *r@[k] == self.at(r@[k].acoords()),
            forall|d: AxialCoords| #[trigger] self.is_shared_nb(a, b, d)
                ==> exists|k: int| 0 <= k < r@.len() && (#[trigger] r@[k]).acoords() == d,
            forall|k1: int, k2: int| 0 <= k1 < k2 < r@.len()
                ==> r@[k1].acoords() != r@[k2].acoords(),
    {
        let a_nbs = self.neighbors(a);
        let mut r: Vec<&Field> = Vec::new();
        let mut i: usize = 0;
        while i < a_nbs.len()
            invariant
                self.wf(),
                a.in_range(),
                b.in_range(),
                forall|k: int| 0 <= k < a_nbs@.len()
                    ==> a.spec_adjacent((#[trigger] a_nbs@[k]).acoords())
                        && self.has(a_nbs@[k].acoords())
                        && *a_nbs@[k] == self.at(a_nbs@[k].acoords()),
                forall|d: AxialCoords| #[trigger] a.spec_adjacent(d) && self.has(d)
                    ==> exists|k: int| 0 <= k < a_nbs@.len() && (#[trigger] a_nbs@[k]).acoords() == d,
                forall|k1: int, k2: int| 0 <= k1 < k2 < a_nbs@.len()
                    ==> a_nbs@[k1].acoords() != a_nbs@[k2].acoords(),
                i <= a_nbs@.len(),
                forall|k: int| #![trigger r@[k]] 0 <= k < r@.len()
                    ==> self.is_shared_nb(a, b, r@[k].acoords())
                        && *r@[k] == self.at(r@[k].acoords()),
                forall|j: int| 0 <= j < i && b.spec_adjacent((#[trigger] a_nbs@[j]).acoords())
                    ==> exists|k: int| 0 <= k < r@.len()
                        && (#[trigger] r@[k]).acoords() == a_nbs@[j].acoords(),
                forall|k1: int, k2: int| 0 <= k1 < k2 < r@.len()
                    ==> r@[k1].acoords() != r@[k2].acoords(),
                forall|k: int| #![trigger r@[k]] 0 <= k < r@.len()
                    ==> exists|j: int| 0 <= j < i && a_nbs@[j].acoords() == r@[k].acoords(),
            decreases a_nbs@.len() - i,
        {
            let f = a_nbs[i];
            let ghost rpre = r@;
            if b.is_adjacent_to(f.coords()) {
                r.push(f);
                proof {
                    assert(r@[rpre.len() as int].acoords() == a_nbs@[i as int].acoords());
                    assert(forall|k: int| 0 <= k < rpre.len() ==> r@[k] == rpre[k]);
                }
            }
            i += 1;
        }
        proof {
            assert forall|d: AxialCoords| #[trigger] self.is_shared_nb(a, b, d) implies
                exists|k: int| 0 <= k < r@.len() && (#[trigger] r@[k]).acoords() == d by {
                assert(a.spec_adjacent(d) && self.has(d));
                let j = choose|j: int| 0 <= j < a_nbs@.len() && (#[trigger] a_nbs@[j]).acoords() == d;
                assert(b.spec_adjacent(a_nbs@[j].acoords()));
            }
        }
        r
    }

    /// Tests whether a slide between the two locations is possible,
    /// treating the cell named by `exception` as if its top piece had
    /// already left.
    pub fn can_move_between_except(
        &self,
        exception: Option<AxialCoords>,
        a: AxialCoords,
        b: AxialCoords,
    ) -> (r: bool)
        requires
            self.wf(),
            a.in_range(),
            b.in_range(),
        ensures
            r == self.can_move_between_spec(exception, a, b),
    {
        let nbs = a.coord_neighbors();
        let mut shared_count: usize = 0;
        let mut any_eff_empty = false;
        let mut any_eff_pieces = false;
        let ghost mut wit_e: int = 0;
        let ghost mut wit_p: int = 0;
        let mut i: usize = 0;
        while i < 6
            invariant
                self.wf(),
                a.in_range(),
                b.in_range(),
                nbs@ == a.spec_neighbors(),
                i <= 6,
                shared_count <= i,
                shared_count == self.count_shared_upto(a, b, i as int),
                any_eff_empty ==> 0 <= wit_e < i && self.shared_at(a, b, wit_e)
                    && self.eff_empty_at(exception, a.spec_neighbors()[wit_e]),
                !any_eff_empty ==> forall|j: int| 0 <= j < i && #[trigger] self.shared_at(a, b, j)
                    ==> !self.eff_empty_at(exception, a.spec_neighbors()[j]),
                any_eff_pieces ==> 0 <= wit_p < i && self.shared_at(a, b, wit_p)
                    && self.eff_pieces_at(exception, a.spec_neighbors()[wit_p]),
                !any_eff_pieces ==> forall|j: int| 0 <= j < i && #[trigger] self.shared_at(a, b, j)
                    ==> !self.eff_pieces_at(exception, a.spec_neighbors()[j]),
            decreases 6 - i,
        {
            let d = nbs[i];
            if b.is_adjacent_to(d) {
                match self.fields.get(d) {
                    Some(f) => {
                        proof {
                            assert(self.shared_at(a, b, i as int));
                            assert(*f == self.at(d));
                        }
                        shared_count += 1;
                        let at_exception = match exception {
                            Some(e) => e.x == f.x && e.y == f.y,
                            None => false,
                        };
                        let eff_pieces = if at_exception {
                            f.pieces.len() >= 2
                        } else {
                            f.pieces.len() >= 1
                        };
                        let eff_empty = !f.is_obstructed && !eff_pieces;
                        proof {
                            assert(at_exception == (exception == Some(d)));
                            assert(eff_pieces == self.eff_pieces_at(exception, d));
                            assert(eff_empty == self.eff_empty_at(exception, d));
                        }
                        if eff_empty && !any_eff_empty {
                            any_eff_empty = true;
                            proof {
                                wit_e = i as int;
                            }
                        }
                        if eff_pieces && !any_eff_pieces {
                            any_eff_pieces = true;
                            proof {
                                wit_p = i as int;
                            }
                        }
                    },
                    None => {
                        proof {
                            assert(!self.shared_at(a, b, i as int));
                        }
                    },
                }
            } else {
                proof {
                    assert(!self.shared_at(a, b, i as int));
                }
            }
            i += 1;
        }
        let gap_open = shared_count == 1 || any_eff_empty;
        proof {
            if any_eff_empty {
                assert(self.shared_at(a, b, wit_e)
                    && self.eff_empty_at(exception, a.spec_neighbors()[wit_e]));
            }
            if any_eff_pieces {
                assert(self.shared_at(a, b, wit_p)
                    && self.eff_pieces_at(exception, a.spec_neighbors()[wit_p]));
            }
        }
        gap_open && any_eff_pieces
    }

    /// Tests whether a slide between the two locations is possible.
    pub fn can_move_between(&self, a: AxialCoords, b: AxialCoords) -> (r: bool)
        requires
            self.wf(),
            a.in_range(),
            b.in_range(),
        ensures
            r == self.can_move_between_spec(None, a, b),
    {
        self.can_move_between_except(None, a, b)
    }

    /// Finds the accessible neighbors: empty neighbor cells that can be
    /// reached by a legal slide, with the cell named by `exception`
    /// treated as though its top piece had already left.
    pub fn accessible_neighbors_except(
        &self,
        exception: Option<AxialCoords>,
        coords: AxialCoords,
    ) -> (r: Vec<&Field>)
        requires
            self.wf(),
            coords.in_range(),
        ensures
            forall|k: int| #![trigger r@[k]] 0 <= k < r@.len()
                ==> self.step_ok(exception, coords, r@[k].acoords())
                    && *r@[k] == self.at(r@[k].acoords()),
            forall|d: AxialCoords| #[trigger] self.step_ok(exception, coords, d)
                ==> exists|k: int| 0 <= k < r@.len() && (#[trigger] r@[k]).acoords() == d,
            forall|k1: int, k2: int| 0 <= k1 < k2 < r@.len()
                ==> r@[k1].acoords() != r@[k2].acoords(),
    {
        let nbs = self.neighbors(coords);
        let mut r: Vec<&Field> = Vec::new();
        let mut i: usize = 0;
        while i < nbs.len()
            invariant
                self.wf(),
                coords.in_range(),
                forall|k: int| 0 <= k < nbs@.len()
                    ==> coords.spec_adjacent((#[trigger] nbs@[k]).acoords())
                        && self.has(nbs@[k].acoords()) && *nbs@[k] == self.at(nbs@[k].acoords()),
                forall|d: AxialCoords| #[trigger] coords.spec_adjacent(d) && self.has(d)
                    ==> exists|k: int| 0 <= k < nbs@.len() && (#[trigger] nbs@[k]).acoords() == d,
                forall|k1: int, k2: int| 0 <= k1 < k2 < nbs@.len()
                    ==> nbs@[k1].acoords() != nbs@[k2].acoords(),
                i <= nbs@.len(),
                forall|k: int| #![trigger r@[k]] 0 <= k < r@.len()
                    ==> self.step_ok(exception, coords, r@[k].acoords())
                        && *r@[k] == self.at(r@[k].acoords()),
                forall|j: int| 0 <= j < i
                    && self.step_ok(exception, coords, (#[trigger] nbs@[j]).acoords())
                    ==> exists|k: int| 0 <= k < r@.len()
                        && (#[trigger] r@[k]).acoords() == nbs@[j].acoords(),
                forall|k: int| #![trigger r@[k]] 0 <= k < r@.len()
                    ==> exists|j: int| 0 <= j < i && nbs@[j].acoords() == r@[k].acoords(),
                forall|k1: int, k2: int| 0 <= k1 < k2 < r@.len()
                    ==> r@[k1].acoords() != r@[k2].acoords(),
            decreases nbs@.len() - i,
        {
            let f = nbs[i];
            let ghost rpre = r@;
            proof {
                assert(f.acoords().in_range()) by {
                    assert(coords_ok(f.acoords()));
                }
            }
            if f.is_empty() && self.can_move_between_except(exception, coords, f.coords()) {
                r.push(f);
                proof {
                    assert(self.step_ok(exception, coords, nbs@[i as int].acoords()));
                    assert(r@[rpre.len() as int].acoords() == nbs@[i as int].acoords());
                    assert(forall|k: int| 0 <= k < rpre.len() ==> r@[k] == rpre[k]);
                    assert forall|k: int| 0 <= k < rpre.len() implies
                        r@[k].acoords() != nbs@[i as int].acoords() by {
                        let j = choose|j: int| 0 <= j < i && (#[trigger] nbs@[j]).acoords() == rpre[k].acoords();
                        assert(nbs@[j].acoords() != nbs@[i as int].acoords());
                    }
                }
            }
            i += 1;
        }
        proof {
            assert forall|d: AxialCoords| #[trigger] self.step_ok(exception, coords, d) implies
                exists|k: int| 0 <= k < r@.len() && (#[trigger] r@[k]).acoords() == d by {
                assert(coords.spec_adjacent(d) && self.has(d));
                let j = choose|j: int| 0 <= j < nbs@.len() && (#[trigger] nbs@[j]).acoords() == d;
                assert(self.step_ok(exception, coords, nbs@[j].acoords()));
            }
        }
        r
    }

    /// Finds the accessible neighbors.
    pub fn accessible_neighbors(&self, coords: AxialCoords) -> (r: Vec<&Field>)
        requires
            self.wf(),
            coords.in_range(),
        ensures
            forall|k: int| #![trigger r@[k]] 0 <= k < r@.len()
                ==> self.step_ok(None, coords, r@[k].acoords())
                    && *r@[k] == self.at(r@[k].acoords()),
            forall|d: AxialCoords| #[trigger] self.step_ok(None, coords, d)
                ==> exists|k: int| 0 <= k < r@.len() && (#[trigger] r@[k]).acoords() == d,
            forall|k1: int, k2: int| 0 <= k1 < k2 < r@.len()
                ==> r@[k1].acoords() != r@[k2].acoords(),
    {
        self.accessible_neighbors_except(None, coords)
    }

    /// An exact observational copy of the board.
    pub fn duplicate(&self) -> (r: Board)
        requires
            self.wf(),
        ensures
            r.wf(),
            r.s().len() == self.s().len(),
            forall|c: AxialCoords| r.has(c) == self.has(c),
            forall|c: AxialCoords| self.has(c) ==> (#[trigger] r.at(c)).same_cell(self.at(c)),
    {
        let mut fields: Vec<Field> = Vec::new();
        let mut i: usize = 0;
        while i < self.fields.fields.len()
            invariant
                self.wf(),
                i <= self.s().len(),
                fields@.len() == i,
                forall|j: int| 0 <= j < i
                    ==> (#[trigger] fields@[j]).same_cell(self.s()[j]),
            decreases self.s().len() - i,
        {
            let f = &self.fields.fields[i];
            fields.push(Field::new(f.coords(), clone_pieces(&f.pieces), f.is_obstructed));
            i += 1;
        }
        let r = Board { fields: Fields { fields } };
        proof {
            assert forall|j: int| 0 <= j < r.fields.fields@.len() implies
                coords_ok(#[trigger] r.fields.fields@[j].acoords()) by {
                assert(r.fields.fields@[j].same_cell(self.s()[j]));
                assert(r.fields.fields@[j].acoords() == self.s()[j].acoords());
                assert(coords_ok(self.fields.fields@[j].acoords()));
            }
            assert forall|i2: int, j2: int|
                0 <= i2 < r.fields.fields@.len() && 0 <= j2 < r.fields.fields@.len() && i2 != j2
                implies r.fields.fields@[i2].acoords() != r.fields.fields@[j2].acoords() by {
                assert(r.fields.fields@[i2].same_cell(self.s()[i2]));
                assert(r.fields.fields@[j2].same_cell(self.s()[j2]));
                assert(r.fields.fields@[i2].acoords() == self.fields.fields@[i2].acoords());
                assert(r.fields.fields@[j2].acoords() == self.fields.fields@[j2].acoords());
            }
            assert(r.wf());
            assert forall|c: AxialCoords| r.has(c) == self.has(c) by {
                if self.has(c) {
                    let j = self.fields.spec_index_of(c);
                    assert(r.s()[j].acoords() == c);
                }
                if r.has(c) {
                    let j = r.fields.spec_index_of(c);
                    assert(self.s()[j].acoords() == c);
                }
            }
            assert forall|c: AxialCoords| self.has(c) implies
                (#[trigger] r.at(c)).same_cell(self.at(c)) by {
                let j = self.fields.spec_index_of(c);
                assert(r.s()[j].acoords() == c);
                assert(r.fields.spec_index_of(c) == j);
            }
        }
        r
    }

    /// Pops the top piece from the stack at the given position.
    pub fn pop_piece_at(&mut self, coords: AxialCoords) -> (r: Option<Piece>)
        requires
            old(self).wf(),
        ensures
            final(self).wf(),
            forall|c: AxialCoords| final(self).has(c) == old(self).has(c),
            forall|c: AxialCoords| c != coords && old(self).has(c)
                ==> #[trigger] final(self).at(c) == old(self).at(c),
            old(self).pieces_at(coords) ==> {
                &&& r == Some(old(self).at(coords).pieces@.last())
                &&& final(self).at(coords).pieces@ == old(self).at(coords).pieces@.drop_last()
                &&& final(self).at(coords).acoords() == coords
                &&& final(self).at(coords).is_obstructed == old(self).at(coords).is_obstructed
            },
            !old(self).pieces_at(coords) ==> r is None
                && (old(self).has(coords)
                    ==> final(self).at(coords).same_cell(old(self).at(coords))),
    {
        let ghost orig = *old(self);
        match self.fields.get_mut(coords) {
            Some(f) => {
                let r = f.pop();
                proof {
                    let i = orig.fields.spec_index_of(coords);
                    assert(self.s() == orig.s().update(i, self.s()[i]));
                    assert(self.s()[i].acoords() == coords);
                    assert forall|c: AxialCoords| self.has(c) == orig.has(c) by {
                        if orig.has(c) {
                            let j = orig.fields.spec_index_of(c);
                            assert(self.s()[j].acoords() == c);
                        }
                        if self.has(c) {
                            let j = self.fields.spec_index_of(c);
                            assert(orig.s()[j].acoords() == c);
                        }
                    }
                    assert forall|c: AxialCoords| c != coords && orig.has(c) implies
                        #[trigger] self.at(c) == orig.at(c) by {
                        let j = orig.fields.spec_index_of(c);
                        assert(j != i);
                        assert(self.s()[j] == orig.s()[j]);
                        assert(self.s()[j].acoords() == c);
                        assert(self.fields.spec_index_of(c) == j);
                    }
                    assert(self.fields.spec_index_of(coords) == i);
                }
                r
            },
            None => None,
        }
    }
}

/// Relies on itertools' `Itertools::unique`: the result keeps exactly the
/// distinct elements of the input, dropping later duplicates.
#[verifier::external_body]
pub(crate) fn unique_coords(v: Vec<AxialCoords>) -> (r: Vec<AxialCoords>)
    ensures
        forall|c: AxialCoords| r@.contains(c) <==> v@.contains(c),
        forall|k1: int, k2: int| 0 <= k1 < k2 < r@.len() ==> r@[k1] != r@[k2],
{
    v.into_iter().unique().collect()
}

impl Board {
    /// Fetches the legal destinations for placing a new piece of `color`
    /// in the regular phase: exactly the empty cells that touch an own
    /// piece and no opposing piece, each once.
    pub fn possible_set_move_destinations(&self, color: PlayerColor) -> (r: Vec<AxialCoords>)
        requires
            self.wf(),
        ensures
            forall|k: int| #![trigger r@[k]] 0 <= k < r@.len()
                ==> self.empty_at(r@[k]) && self.next_to(r@[k], color)
                    && !self.next_to(r@[k], color.spec_opponent()),
            forall|c: AxialCoords| self.empty_at(c) && #[trigger] self.next_to(c, color)
                && !self.next_to(c, color.spec_opponent())
                ==> r@.contains(c),
            forall|k1: int, k2: int| 0 <= k1 < k2 < r@.len() ==> r@[k1] != r@[k2],
    {
        let opponent = color.opponent();
        let owned = self.fields_owned_by(color);
        let mut candidates: Vec<AxialCoords> = Vec::new();
        let mut i: usize = 0;
        while i < owned.len()
            invariant
                self.wf(),
                forall|k: int| #![trigger owned@[k]] 0 <= k < owned@.len()
                    ==> owned@[k].spec_owner() == Some(color)
                        && exists|j: int| 0 <= j < self.s().len() && *owned@[k] == self.s()[j],
                forall|j: int| #![trigger self.s()[j]] 0 <= j < self.s().len()
                    && self.s()[j].spec_owner() == Some(color)
                    ==> exists|k: int| 0 <= k < owned@.len() && *owned@[k] == self.s()[j],
                i <= owned@.len(),
                forall|k: int| #![trigger candidates@[k]] 0 <= k < candidates@.len()
                    ==> self.empty_at(candidates@[k]) && self.next_to(candidates@[k], color),
                forall|c: AxialCoords, k: int| 0 <= k < i && self.empty_at(c)
                    && #[trigger] c.spec_adjacent(owned@[k].acoords())
                    ==> candidates@.contains(c),
            decreases owned@.len() - i,
        {
            let c = owned[i].coords();
            proof {
                let j = choose|j: int| 0 <= j < self.s().len() && *owned@[i as int] == self.s()[j];
                assert(self.s()[j].acoords() == c);
                assert(coords_ok(self.s()[j].acoords()));
                assert(self.fields.spec_index_of(c) == j);
                assert(self.owned_at(c, color));
            }
            let nbs = self.empty_neighbors(c);
            let ghost pre_outer = candidates@;
            let mut j: usize = 0;
            while j < nbs.len()
                invariant
                    self.wf(),
                    c.in_range(),
                    self.owned_at(c, color),
                    forall|k: int| 0 <= k < nbs@.len()
                        ==> c.spec_adjacent((#[trigger] nbs@[k]).acoords())
                            && self.empty_at(nbs@[k].acoords())
                            && *nbs@[k] == self.at(nbs@[k].acoords()),
                    forall|d: AxialCoords| #[trigger] c.spec_adjacent(d) && self.empty_at(d)
                        ==> exists|k: int| 0 <= k < nbs@.len()
                            && (#[trigger] nbs@[k]).acoords() == d,
                    j <= nbs@.len(),
                    candidates@.len() >= pre_outer.len(),
                    forall|k: int| 0 <= k < pre_outer.len() ==> candidates@[k] == pre_outer[k],
                    forall|k: int| #![trigger candidates@[k]] 0 <= k < candidates@.len()
                        ==> self.empty_at(candidates@[k]) && self.next_to(candidates@[k], color),
                    forall|k: int| #![trigger nbs@[k]] 0 <= k < j
                        ==> candidates@.contains(nbs@[k].acoords()),
                decreases nbs@.len() - j,
            {
                let d = nbs[j].coords();
                let ghost cpre = candidates@;
                candidates.push(d);
                proof {
                    let i2 = self.fields.spec_index_of(d);
                    assert(coords_ok(self.s()[i2].acoords()));
                    crate::util::lemma_adjacent_symm(c, d);
                    assert(self.next_to(d, color)) by {
                        assert(d.spec_adjacent(c) && self.owned_at(c, color));
                    }
                    assert(candidates@[cpre.len() as int] == d);
                    assert(forall|k: int| 0 <= k < cpre.len() ==> candidates@[k] == cpre[k]);
                    assert forall|k: int| #![trigger nbs@[k]] 0 <= k < j + 1 implies
                        candidates@.contains(nbs@[k].acoords()) by {
                        if k < j {
                            let t = choose|t: int| 0 <= t < cpre.len()
                                && cpre[t] == nbs@[k].acoords();
                            assert(candidates@[t] == nbs@[k].acoords());
                        } else {
                            assert(candidates@[cpre.len() as int] == nbs@[k].acoords());
                        }
                    }
                }
                j += 1;
            }
            proof {
                assert forall|d: AxialCoords, k: int| 0 <= k < i + 1 && self.empty_at(d)
                    && #[trigger] d.spec_adjacent(owned@[k].acoords())
                    implies candidates@.contains(d) by {
                    if k < i {
                        let t = choose|t: int| 0 <= t < pre_outer.len() && pre_outer[t] == d;
                        assert(candidates@[t] == d);
                    } else {
                        assert(owned@[k].acoords() == c);
                        let i4 = self.fields.spec_index_of(d);
                        assert(coords_ok(self.s()[i4].acoords()));
                        crate::util::lemma_adjacent_symm(c, d);
                        assert(c.spec_adjacent(d));
                        let kk = choose|kk: int| 0 <= kk < nbs@.len()
                            && (#[trigger] nbs@[kk]).acoords() == d;
                        assert(candidates@.contains(nbs@[kk].acoords()));
                    }
                }
            }
            i += 1;
        }
        let distinct = unique_coords(candidates);
        let ghost cands = candidates@;
        let mut r: Vec<AxialCoords> = Vec::new();
        let ghost mut src_idx: Seq<int> = Seq::empty();
        let mut i: usize = 0;
        while i < distinct.len()
            invariant
                self.wf(),
                opponent == color.spec_opponent(),
                forall|c: AxialCoords| distinct@.contains(c) <==> cands.contains(c),
                forall|k1: int, k2: int| 0 <= k1 < k2 < distinct@.len()
                    ==> distinct@[k1] != distinct@[k2],
                forall|k: int| #![trigger cands[k]] 0 <= k < cands.len()
                    ==> self.empty_at(cands[k]) && self.next_to(cands[k], color),
                i <= distinct@.len(),
                src_idx.len() == r@.len(),
                forall|k: int| #![trigger src_idx[k]] 0 <= k < src_idx.len()
                    ==> 0 <= src_idx[k] < i && r@[k] == distinct@[src_idx[k]],
                forall|k1: int, k2: int| 0 <= k1 < k2 < src_idx.len()
                    ==> src_idx[k1] < src_idx[k2],
                forall|k: int| #![trigger r@[k]] 0 <= k < r@.len()
                    ==> self.empty_at(r@[k]) && self.next_to(r@[k], color)
                        && !self.next_to(r@[k], color.spec_opponent()),
                forall|k: int| #![trigger distinct@[k]] 0 <= k < i
                    && !self.next_to(distinct@[k], color.spec_opponent())
                    ==> r@.contains(distinct@[k]),
            decreases distinct@.len() - i,
        {
            let d = distinct[i];
            proof {
                assert(cands.contains(d)) by {
                    assert(distinct@.contains(d)) by {
                        assert(distinct@[i as int] == d);
                    }
                }
                let k = choose|k: int| 0 <= k < cands.len() && cands[k] == d;
                assert(self.empty_at(d) && self.next_to(d, color));
                let i2 = self.fields.spec_index_of(d);
                assert(coords_ok(self.s()[i2].acoords()));
            }
            let ghost rpre = r@;
            let blocked = self.is_next_to(opponent, d);
            if !blocked {
                r.push(d);
                proof {
                    src_idx = src_idx.push(i as int);
                    assert(r@[rpre.len() as int] == d);
                    assert(forall|k: int| 0 <= k < rpre.len() ==> r@[k] == rpre[k]);
                }
            }
            proof {
                assert forall|k: int| #![trigger distinct@[k]] 0 <= k < i + 1
                    && !self.next_to(distinct@[k], color.spec_opponent())
                    implies r@.contains(distinct@[k]) by {
                    if k < i {
                        let t = choose|t: int| 0 <= t < rpre.len() && rpre[t] == distinct@[k];
                        assert(r@[t] == distinct@[k]);
                    } else {
                        assert(!blocked);
                        assert(r@[rpre.len() as int] == d);
                    }
                }
            }
            i += 1;
        }
        proof {
            assert forall|k1: int, k2: int| 0 <= k1 < k2 < r@.len() implies
                r@[k1] != r@[k2] by {
                assert(r@[k1] == distinct@[src_idx[k1]]);
                assert(r@[k2] == distinct@[src_idx[k2]]);
                assert(src_idx[k1] < src_idx[k2]);
            }
            assert forall|c: AxialCoords| self.empty_at(c) && #[trigger] self.next_to(c, color)
                && !self.next_to(c, color.spec_opponent()) implies r@.contains(c) by {
                let dd = choose|dd: AxialCoords| c.spec_adjacent(dd) && self.owned_at(dd, color);
                let jj = self.fields.spec_index_of(dd);
                assert(self.s()[jj].spec_owner() == Some(color));
                let k = choose|k: int| 0 <= k < owned@.len() && *owned@[k] == self.s()[jj];
                assert(owned@[k].acoords() == dd);
                assert(candidates@.contains(c)) by {
                    assert(c.spec_adjacent(owned@[k].acoords()));
                }
                assert(distinct@.contains(c));
                let t = choose|t: int| 0 <= t < distinct@.len() && distinct@[t] == c;
                assert(r@.contains(distinct@[t]));
            }
        }
        r
    }
}

/// The six neighbors of an in-range coordinate are pairwise distinct.
pub proof fn lemma_neighbors_distinct(c: AxialCoords)
    requires
        c.in_range(),
    ensures
        forall|i: int, j: int|
            0 <= i < j < c.spec_neighbors().len()
                ==> c.spec_neighbors()[i] != c.spec_neighbors()[j],
{
}

/// Clones a stack of pieces.
fn clone_pieces(pieces: &Vec<Piece>) -> (r: Vec<Piece>)
    ensures
        r@ == pieces@,
{
    let mut r: Vec<Piece> = Vec::new();
    let mut i: usize = 0;
    while i < pieces.len()
        invariant
            i <= pieces@.len(),
            r@ == pieces@.subrange(0, i as int),
        decreases pieces@.len() - i,
    {
        r.push(pieces[i]);
        proof {
            assert(r@ =~= pieces@.subrange(0, i + 1));
        }
        i += 1;
    }
    proof {
        assert(r@ =~= pieces@);
    }
    r
}

} // verus!
