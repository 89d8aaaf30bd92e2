//! A plain list of pieces, e.g. a player's undeployed reserve.

use vstd::prelude::*;
use crate::game::piece::Piece;
use crate::game::piece_type::PieceType;
use crate::game::player_color::PlayerColor;

verus! {

/// The pieces a color starts the game with: one Bee, three Spiders, two
/// Grasshoppers, two Beetles and three Ants.
pub open spec fn spec_initial_piece_types() -> Seq<PieceType> {
    seq![
        PieceType::Bee,
        PieceType::Spider,
        PieceType::Spider,
        PieceType::Spider,
        PieceType::Grasshopper,
        PieceType::Grasshopper,
        PieceType::Beetle,
        PieceType::Beetle,
        PieceType::Ant,
        PieceType::Ant,
        PieceType::Ant,
    ]
}

/// Fetches the piece types every color starts the game with.
pub fn initial_piece_types() -> (r: Vec<PieceType>)
    ensures
        r@ == spec_initial_piece_types(),
{
    let r = vec![
        PieceType::Bee,
        PieceType::Spider,
        PieceType::Spider,
        PieceType::Spider,
        PieceType::Grasshopper,
        PieceType::Grasshopper,
        PieceType::Beetle,
        PieceType::Beetle,
        PieceType::Ant,
        PieceType::Ant,
        PieceType::Ant,
    ];
    proof {
        assert(r@ =~= spec_initial_piece_types());
    }
    r
}

/// A list of pieces.
#[derive(Debug, Clone, PartialEq, Eq)]
pub struct Pieces {
    pub pieces: Vec<Piece>,
}

impl Pieces {
    /// Creates an empty list.
    pub fn new() -> (r: Self)
        ensures
            r.pieces@ == Seq::<Piece>::empty(),
    {
        Self { pieces: Vec::new() }
    }

    /// The full reserve of the given color.
    pub fn initial(color: PlayerColor) -> (r: Self)
        ensures
            r.pieces@.len() == spec_initial_piece_types().len(),
            forall|i: int| 0 <= i < r.pieces@.len()
                ==> r.pieces@[i] == (Piece { owner: color, piece_type: spec_initial_piece_types()[i] }),
    {
        let types = initial_piece_types();
        let mut pieces: Vec<Piece> = Vec::new();
        let mut i: usize = 0;
        while i < types.len()
            invariant
                types@ == spec_initial_piece_types(),
                0 <= i <= types@.len(),
                pieces@.len() == i,
                forall|j: int| 0 <= j < i
                    ==> pieces@[j] == (Piece { owner: color, piece_type: spec_initial_piece_types()[j] }),
            decreases types@.len() - i,
        {
            pieces.push(Piece { owner: color, piece_type: types[i] });
            i += 1;
        }
        Self { pieces }
    }

    /// The number of pieces in the list.
    pub fn len(&self) -> (r: usize)
        ensures
            r == self.pieces@.len(),
    {
        self.pieces.len()
    }

    /// Tests whether the list holds the given piece.
    pub fn contains(&self, piece: &Piece) -> (r: bool)
        ensures
            r == self.pieces@.contains(*piece),
    {
        let mut i: usize = 0;
        while i < self.pieces.len()
            invariant
                0 <= i <= self.pieces@.len(),
                forall|j: int| 0 <= j < i ==> self.pieces@[j] != *piece,
            decreases self.pieces@.len() - i,
        {
            if self.pieces[i].owner == piece.owner && self.pieces[i].piece_type == piece.piece_type {
                assert(self.pieces@[i as int] == *piece);
                return true;
            }
            i += 1;
        }
        false
    }

    /// Read access to the pieces.
    pub fn iter(&self) -> (r: &Vec<Piece>)
        ensures
            r == &self.pieces,
    {
        &self.pieces
    }
}

} // verus!
