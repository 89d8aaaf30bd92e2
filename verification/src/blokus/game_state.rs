//! A snapshot of the square-grid game's state.

use vstd::prelude::*;
use crate::blokus::board::Board;
use crate::blokus::color::Color;
use crate::blokus::colors::Colors;
use crate::blokus::moves::Move;
use crate::blokus::piece::Piece;
use crate::blokus::piece_shape::PieceShape;
use crate::blokus::piece_shapes::{PieceShapes, SHAPE_COUNT};
use crate::blokus::player::Player;
use crate::blokus::team::Team;
use crate::error::{SCError, SCResult};

verus! {

/// A snapshot of the game's state: the information needed to compute the
/// next move.
#[derive(Debug, Clone)]
pub struct GameState {
    /// The number of already committed moves.
    pub turn: u32,
    /// The number of completed rounds.
    pub round: u32,
    /// The first team's player.
    pub first: Player,
    /// The second team's player.
    pub second: Player,
    /// The current game board.
    pub board: Board,
    /// The shape that has to be placed in the first round.
    pub start_piece: PieceShape,
    /// The color that begins the game.
    pub start_color: Color,
    /// The team that begins the game.
    pub start_team: Team,
    /// All colors currently in the game, in play order.
    pub ordered_colors: Colors,
    /// The current color's index in the play order.
    pub current_color_index: u32,
    /// The undeployed blue shapes.
    pub blue_shapes: PieceShapes,
    /// The undeployed yellow shapes.
    pub yellow_shapes: PieceShapes,
    /// The undeployed red shapes.
    pub red_shapes: PieceShapes,
    /// The undeployed green shapes.
    pub green_shapes: PieceShapes,
}

impl GameState {
    /// A usable snapshot: the play order is non-empty and the index is in
    /// bounds.
    pub open spec fn wf(self) -> bool {
        self.current_color_index < self.ordered_colors.colors@.len()
    }

    /// The color to move.
    pub open spec fn spec_current_color(self) -> Color {
        self.ordered_colors.colors@[self.current_color_index as int]
    }

    /// Fetches the current color.
    pub fn current_color(&self) -> (r: Color)
        requires
            self.wf(),
        ensures
            r == self.spec_current_color(),
    {
        self.ordered_colors.get(self.current_color_index as usize)
    }

    /// Fetches the current team.
    pub fn current_team(&self) -> (r: Team)
        requires
            self.wf(),
        ensures
            r == self.spec_current_color().spec_team(),
    {
        self.current_color().team()
    }

    /// Fetches the current player. The current color must belong to a
    /// team.
    pub fn current_player(&self) -> (r: &Player)
        requires
            self.wf(),
            self.spec_current_color().spec_team() != Team::Neutral,
        ensures
            self.spec_current_color().spec_team() == Team::One ==> *r == self.first,
            self.spec_current_color().spec_team() == Team::Two ==> *r == self.second,
    {
        match self.current_team() {
            Team::One => &self.first,
            Team::Two => &self.second,
            Team::Neutral => &self.first,
        }
    }

    /// The undeployed shapes of a color, as a spec value.
    pub open spec fn spec_shapes_of(self, color: Color) -> Seq<PieceShape> {
        match color {
            Color::Red => self.red_shapes.shapes@,
            Color::Yellow => self.yellow_shapes.shapes@,
            Color::Green => self.green_shapes.shapes@,
            Color::Blue => self.blue_shapes.shapes@,
            Color::Neutral => Seq::empty(),
        }
    }

    /// Fetches the undeployed piece shapes of a given color, which must
    /// not be the empty color.
    pub fn shapes_of_color(&self, color: Color) -> (r: &PieceShapes)
        requires
            color != Color::Neutral,
        ensures
            r.shapes@ == self.spec_shapes_of(color),
    {
        match color {
            Color::Red => &self.red_shapes,
            Color::Yellow => &self.yellow_shapes,
            Color::Green => &self.green_shapes,
            Color::Blue => &self.blue_shapes,
            Color::Neutral => &self.blue_shapes,
        }
    }

    /// Whether the current color still holds its full set of shapes.
    pub fn is_first_move(&self) -> (r: bool)
        requires
            self.wf(),
            self.spec_current_color() != Color::Neutral,
        ensures
            r == (self.spec_shapes_of(self.spec_current_color()).len() == SHAPE_COUNT),
    {
        self.shapes_of_color(self.current_color()).len() == 21
    }

    /// Checks whether the given move has the right color.
    fn validate_move_color(&self, game_move: &Move) -> (r: SCResult<()>)
        requires
            self.wf(),
        ensures
            r is Ok <==> (match *game_move {
                Move::Skip { color } => color,
                Move::Place { piece } => piece.color,
            }) == self.spec_current_color(),
    {
        if game_move.color() == self.current_color() {
            Ok(())
        } else {
            Err(SCError::custom("move color does not match the game state color"))
        }
    }

    /// Checks whether the given shape may be placed: the requested start
    /// shape on the first move, an undeployed shape afterwards.
    fn validate_shape(&self, shape: &PieceShape, color: Color) -> (r: SCResult<()>)
        requires
            self.wf(),
            self.spec_current_color() != Color::Neutral,
            color != Color::Neutral,
    {
        if self.is_first_move() {
            if crate::strings::str_eq(shape.name(), self.start_piece.name()) {
                Ok(())
            } else {
                Err(SCError::custom("the shape is not the requested first shape"))
            }
        } else if self.shapes_of_color(color).contains_name(shape.name()) {
            Ok(())
        } else {
            Err(SCError::custom("the shape has already been placed"))
        }
    }

    /// Checks whether the given set move is valid: the shape is allowed,
    /// every cell is free and in bounds, no edge touches the own color,
    /// and the piece sits on a corner (first move) or touches the own
    /// color diagonally (later moves).
    fn validate_set_move(&self, piece: &Piece) -> (r: SCResult<()>)
        requires
            self.wf(),
            self.spec_current_color() != Color::Neutral,
            piece.color != Color::Neutral,
            piece.position.in_range(),
            -0x3000_0000 < piece.position.x && piece.position.x < 0x3000_0000,
            -0x3000_0000 < piece.position.y && piece.position.y < 0x3000_0000,
    {
        let shape = piece.shape();
        match self.validate_shape(&shape, piece.color) {
            Ok(_) => {},
            Err(e) => {
                return Err(e);
            },
        }
        let cells = piece.coordinates();
        let mut i: usize = 0;
        while i < cells.len()
            invariant
                self.wf(),
                -0x3000_0000 < piece.position.x && piece.position.x < 0x3000_0000,
                -0x3000_0000 < piece.position.y && piece.position.y < 0x3000_0000,
                forall|k: int| 0 <= k < cells@.len()
                    ==> piece.position.x <= (#[trigger] cells@[k]).x < piece.position.x + 5
                        && piece.position.y <= cells@[k].y < piece.position.y + 5,
                i <= cells@.len(),
            decreases cells@.len() - i,
        {
            let c = cells[i];
            if !Board::is_in_bounds(c) {
                return Err(SCError::custom("a target cell is out of bounds"));
            }
            if self.board.is_obstructed(c) {
                return Err(SCError::custom("a target cell is obstructed"));
            }
            if self.board.borders_on_color(c, piece.color) {
                return Err(SCError::custom("a target cell borders on the own color"));
            }
            i += 1;
        }
        let mut anchored = false;
        let first = self.is_first_move();
        let mut i: usize = 0;
        while i < cells.len()
            invariant
                self.wf(),
                -0x3000_0000 < piece.position.x && piece.position.x < 0x3000_0000,
                -0x3000_0000 < piece.position.y && piece.position.y < 0x3000_0000,
                forall|k: int| 0 <= k < cells@.len()
                    ==> piece.position.x <= (#[trigger] cells@[k]).x < piece.position.x + 5
                        && piece.position.y <= cells@[k].y < piece.position.y + 5,
                i <= cells@.len(),
            decreases cells@.len() - i,
        {
            let c = cells[i];
            if first {
                if Board::is_on_corner(c) {
                    anchored = true;
                }
            } else {
                if self.board.corners_on_color(c, piece.color) {
                    anchored = true;
                }
            }
            i += 1;
        }
        if anchored {
            Ok(())
        } else if first {
            Err(SCError::custom("the first piece must cover a corner"))
        } else {
            Err(SCError::custom("the piece shares no corner with the own color"))
        }
    }

    /// Performs the given move: validates it and, for a placement, puts
    /// the piece on the board and retires its shape.
    pub fn perform_move(&mut self, game_move: &Move) -> (r: SCResult<()>)
        requires
            old(self).wf(),
            old(self).spec_current_color() != Color::Neutral,
            (match *game_move {
                Move::Place { piece } => piece.color != Color::Neutral
                    && piece.position.in_range()
                    && -0x3000_0000 < piece.position.x && piece.position.x < 0x3000_0000
                    && -0x3000_0000 < piece.position.y && piece.position.y < 0x3000_0000,
                Move::Skip { .. } => true,
            }),
        ensures
            r is Err ==> *final(self) == *old(self),
    {
        match self.validate_move_color(game_move) {
            Ok(_) => {},
            Err(e) => {
                return Err(e);
            },
        }
        match game_move {
            Move::Place { piece } => {
                match self.validate_set_move(piece) {
                    Ok(_) => {},
                    Err(e) => {
                        return Err(e);
                    },
                }
                self.board.place(piece);
                let shape = piece.shape();
                let name_owned = shape.name().to_owned();
                match piece.color {
                    Color::Red => {
                        self.red_shapes.remove(name_owned.as_str());
                    },
                    Color::Yellow => {
                        self.yellow_shapes.remove(name_owned.as_str());
                    },
                    Color::Green => {
                        self.green_shapes.remove(name_owned.as_str());
                    },
                    Color::Blue => {
                        self.blue_shapes.remove(name_owned.as_str());
                    },
                    Color::Neutral => {},
                }
                Ok(())
            },
            Move::Skip { .. } => Ok(()),
        }
    }

    /// An observational copy of the snapshot: the play order, index and
    /// scalar fields carry over exactly.
    pub fn duplicate(&self) -> (r: GameState)
        ensures
            r.turn == self.turn,
            r.round == self.round,
            r.start_color == self.start_color,
            r.start_team == self.start_team,
            r.ordered_colors.colors@ == self.ordered_colors.colors@,
            r.current_color_index == self.current_color_index,
            r.wf() == self.wf(),
            self.wf() ==> r.spec_current_color() == self.spec_current_color(),
    {
        GameState {
            turn: self.turn,
            round: self.round,
            first: self.first.clone(),
            second: self.second.clone(),
            board: Board::from_fields(crate::blokus::fields::Fields {
                fields: copy_vec(&self.board.fields.fields),
            }),
            start_piece: self.start_piece.duplicate(),
            start_color: self.start_color,
            start_team: self.start_team,
            ordered_colors: Colors { colors: copy_vec(&self.ordered_colors.colors) },
            current_color_index: self.current_color_index,
            blue_shapes: self.blue_shapes.clone(),
            yellow_shapes: self.yellow_shapes.clone(),
            red_shapes: self.red_shapes.clone(),
            green_shapes: self.green_shapes.clone(),
        }
    }

    /// Fetches the state after the given move, leaving this one as it is.
    pub fn after_move(&self, game_move: &Move) -> (r: SCResult<GameState>)
        requires
            self.wf(),
            self.spec_current_color() != Color::Neutral,
            (match *game_move {
                Move::Place { piece } => piece.color != Color::Neutral
                    && piece.position.in_range()
                    && -0x3000_0000 < piece.position.x && piece.position.x < 0x3000_0000
                    && -0x3000_0000 < piece.position.y && piece.position.y < 0x3000_0000,
                Move::Skip { .. } => true,
            }),
    {
        let mut next = self.duplicate();
        match next.perform_move(game_move) {
            Ok(_) => Ok(next),
            Err(e) => Err(e),
        }
    }
}

/// Copies a vector of plain values.
fn copy_vec<T: Copy>(v: &Vec<T>) -> (r: Vec<T>)
    ensures
        r@ == v@,
{
    let mut r: Vec<T> = Vec::new();
    let mut i: usize = 0;
    while i < v.len()
        invariant
            i <= v@.len(),
            r@ == v@.subrange(0, i as int),
        decreases v@.len() - i,
    {
        r.push(v[i]);
        proof {
            assert(r@ =~= v@.subrange(0, i + 1));
        }
        i += 1;
    }
    proof {
        assert(r@ =~= v@);
    }
    r
}

} // verus!
