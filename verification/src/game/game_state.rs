//! A snapshot of the game, the move validator and the move generator.

use vstd::prelude::*;
use crate::game::board::Board;
use crate::game::field::Field;
use crate::game::moves::{Move, MoveViolation};
use crate::game::piece::Piece;
use crate::game::piece_type::PieceType;
use crate::game::pieces::Pieces;
use crate::game::player::Player;
use crate::game::player_color::PlayerColor;
use crate::util::AxialCoords;

verus! {

/// A snapshot of the game's state at a specific turn: the board together
/// with information about both players.
#[derive(Debug, Clone)]
pub struct GameState {
    pub turn: u32,
    pub start_player_color: PlayerColor,
    pub current_player_color: PlayerColor,
    pub board: Board,
    pub red_player: Player,
    pub blue_player: Player,
    pub undeployed_red_pieces: Pieces,
    pub undeployed_blue_pieces: Pieces,
}

/// The sign of an integer.
pub open spec fn spec_sign(n: int) -> int {
    if n > 0 {
        1
    } else if n < 0 {
        -1
    } else {
        0
    }
}

/// Integer absolute value.
pub open spec fn spec_abs(n: int) -> int {
    if n >= 0 {
        n
    } else {
        -n
    }
}

/// Two axial cells lie on a common straight hex line when their cube
/// forms agree on an axis.
pub open spec fn spec_forms_line(a: AxialCoords, b: AxialCoords) -> bool {
    a.x == b.x || a.y == b.y || a.x + a.y == b.x + b.y
}

/// Walks the cells strictly between `(cx, cy)`'s predecessor and
/// `(bx, by)` along the line, requiring each existing cell on the way to
/// be occupied (cells off the board do not block).
pub open spec fn hop_clear_from(board: Board, cx: int, cy: int, bx: int, by: int, sx: int, sy: int) -> bool
    decreases spec_abs(bx - cx) + spec_abs(by - cy)
        when (cx == bx && cy == by)
            || (sx == spec_sign(bx - cx) && sy == spec_sign(by - cy) && (sx != 0 || sy != 0))
{
    if cx == bx && cy == by {
        true
    } else {
        !board.empty_at(AxialCoords { x: cx as i32, y: cy as i32 })
            && hop_clear_from(board, cx + sx, cy + sy, bx, by, sx, sy)
    }
}

/// The grasshopper rule: the two cells form a line, the jump spans at
/// least two cells, and no existing empty cell lies in between.
pub open spec fn spec_grasshopper_ok(board: Board, a: AxialCoords, b: AxialCoords) -> bool {
    let sx = spec_sign(b.x - a.x);
    let sy = spec_sign(b.y - a.y);
    &&& spec_forms_line(a, b)
    &&& !a.spec_adjacent(b)
    &&& (a == b || hop_clear_from(board, a.x + sx, a.y + sy, b.x as int, b.y as int, sx, sy))
}

/// The piece and target position of a placement, if the move is one.
pub open spec fn spec_set_move_parts(m: Move) -> Option<(Piece, AxialCoords)> {
    match m {
        Move::SetMove { piece, destination } => Some((piece, destination.acoords())),
        Move::DragMove { .. } => None,
    }
}

/// The start and target positions of a relocation, if the move is one.
pub open spec fn spec_drag_move_parts(m: Move) -> Option<(AxialCoords, AxialCoords)> {
    match m {
        Move::DragMove { start, destination } => Some((start.acoords(), destination.acoords())),
        Move::SetMove { .. } => None,
    }
}

/// The generator's shape: the first `n` moves are pairwise-distinct
/// placements and the rest are relocations.
pub open spec fn spec_phase_split(moves: Seq<Move>, n: int) -> bool {
    &&& 0 <= n <= moves.len()
    &&& forall|k: int| 0 <= k < n ==> (#[trigger] spec_set_move_parts(moves[k])) is Some
    &&& forall|k: int| n <= k < moves.len()
        ==> (#[trigger] spec_drag_move_parts(moves[k])) is Some
    &&& forall|k1: int, k2: int| 0 <= k1 < k2 < n
        ==> spec_set_move_parts(moves[k1]) != spec_set_move_parts(moves[k2])
}

impl GameState {
    /// A well-formed snapshot: the board is well-formed, and a color whose
    /// Bee is not on the board still holds it in its undeployed reserve.
    pub open spec fn wf(self) -> bool {
        &&& self.board.wf()
        &&& !self.board.spec_contains_piece(
            Piece { owner: PlayerColor::Red, piece_type: PieceType::Bee },
        ) ==> self.undeployed_red_pieces.pieces@.contains(
            Piece { owner: PlayerColor::Red, piece_type: PieceType::Bee },
        )
        &&& !self.board.spec_contains_piece(
            Piece { owner: PlayerColor::Blue, piece_type: PieceType::Bee },
        ) ==> self.undeployed_blue_pieces.pieces@.contains(
            Piece { owner: PlayerColor::Blue, piece_type: PieceType::Bee },
        )
    }

    /// The undeployed reserve of a color, as a spec value.
    pub open spec fn spec_undeployed(self, color: PlayerColor) -> Seq<Piece> {
        match color {
            PlayerColor::Red => self.undeployed_red_pieces.pieces@,
            PlayerColor::Blue => self.undeployed_blue_pieces.pieces@,
        }
    }

    /// Creates a fresh snapshot.
    pub fn new(
        turn: u32,
        start_player_color: PlayerColor,
        current_player_color: PlayerColor,
        board: Board,
        red_player: Player,
        blue_player: Player,
        undeployed_red_pieces: Pieces,
        undeployed_blue_pieces: Pieces,
    ) -> (r: GameState)
        ensures
            r.turn == turn,
            r.start_player_color == start_player_color,
            r.current_player_color == current_player_color,
            r.board == board,
            r.undeployed_red_pieces == undeployed_red_pieces,
            r.undeployed_blue_pieces == undeployed_blue_pieces,
    {
        GameState {
            turn,
            start_player_color,
            current_player_color,
            board,
            red_player,
            blue_player,
            undeployed_red_pieces,
            undeployed_blue_pieces,
        }
    }

    /// Fetches the undeployed pieces for a specific color.
    pub fn undeployed_pieces(&self, color: PlayerColor) -> (r: &Pieces)
        ensures
            r.pieces@ == self.spec_undeployed(color),
    {
        match color {
            PlayerColor::Red => &self.undeployed_red_pieces,
            PlayerColor::Blue => &self.undeployed_blue_pieces,
        }
    }

    /// Fetches the player data for a given color.
    pub fn player(&self, color: PlayerColor) -> (r: &Player)
        ensures
            *r == (match color {
                PlayerColor::Red => self.red_player,
                PlayerColor::Blue => self.blue_player,
            }),
    {
        match color {
            PlayerColor::Red => &self.red_player,
            PlayerColor::Blue => &self.blue_player,
        }
    }

    /// Fetches the current round, which is half the turn.
    pub fn round(&self) -> (r: u32)
        ensures
            r == self.turn / 2,
    {
        self.turn / 2
    }

    /// The placement rules, checked in order; the first failing rule wins.
    #[verifier::opaque]
    pub open spec fn spec_validate_set(self, color: PlayerColor, piece: Piece, dest: AxialCoords) -> Result<(), MoveViolation> {
        let opponent = color.spec_opponent();
        if !self.board.has(dest) {
            Err(MoveViolation::DestinationOutOfBounds)
        } else if self.board.at(dest).is_obstructed {
            Err(MoveViolation::DestinationObstructed)
        } else if !self.board.spec_has_pieces() {
            Ok(())
        } else if !(exists|c: AxialCoords| #[trigger] self.board.owned_at(c, color)) {
            if self.board.next_to(dest, opponent) {
                Ok(())
            } else {
                Err(MoveViolation::NotNextToOpponent)
            }
        } else if self.turn / 2 == 3 && !self.board.spec_contains_piece(
            Piece { owner: color, piece_type: PieceType::Bee },
        ) && piece.piece_type != PieceType::Bee {
            Err(MoveViolation::BeeRequired)
        } else if !self.spec_undeployed(color).contains(piece) {
            Err(MoveViolation::PieceNotUndeployed)
        } else if !self.board.next_to(dest, color) {
            Err(MoveViolation::NotNextToOwn)
        } else if self.board.next_to(dest, opponent) {
            Err(MoveViolation::NextToOpponent)
        } else {
            Ok(())
        }
    }

    /// The relocation rules, checked in order; the first failing rule wins.
    #[verifier::opaque]
    pub open spec fn spec_validate_drag(self, color: PlayerColor, start: AxialCoords, dest: AxialCoords) -> Result<(), MoveViolation> {
        let board = self.board;
        if !board.spec_contains_piece(Piece { owner: color, piece_type: PieceType::Bee }) {
            Err(MoveViolation::BeeNotPlaced)
        } else if !board.has(start) {
            Err(MoveViolation::StartOutOfBounds)
        } else if !board.has(dest) {
            Err(MoveViolation::DestinationOutOfBounds)
        } else if board.at(start).pieces@.len() == 0 {
            Err(MoveViolation::NoPieceToMove)
        } else if board.at(start).pieces@.last().owner != color {
            Err(MoveViolation::OpponentPiece)
        } else if start == dest {
            Err(MoveViolation::SamePosition)
        } else if board.at(dest).spec_occupied()
            && board.at(start).pieces@.last().piece_type != PieceType::Beetle {
            Err(MoveViolation::OnlyBeetlesClimb)
        } else if !board.swarm_connected_without(start) {
            Err(MoveViolation::DisconnectsSwarm)
        } else {
            match board.at(start).pieces@.last().piece_type {
                PieceType::Ant => if board.boundary_connected(Some(start), start, dest) {
                    Ok(())
                } else {
                    Err(MoveViolation::NoAntPath)
                },
                PieceType::Bee => if !start.spec_adjacent(dest) {
                    Err(MoveViolation::NotAdjacent)
                } else if board.can_move_between_spec(Some(start), start, dest) {
                    Ok(())
                } else {
                    Err(MoveViolation::CannotSlide)
                },
                PieceType::Beetle => if !start.spec_adjacent(dest) {
                    Err(MoveViolation::NotAdjacent)
                } else if (exists|i: int|
                    0 <= i < 6 && #[trigger] board.shared_at(start, dest, i)
                        && board.pieces_at(start.spec_neighbors()[i]))
                    || board.at(dest).pieces@.len() > 0 {
                    Ok(())
                } else {
                    Err(MoveViolation::BeetleMustTouchSwarm)
                },
                PieceType::Grasshopper => if !spec_forms_line(start, dest) {
                    Err(MoveViolation::NotInLine)
                } else if start.spec_adjacent(dest) {
                    Err(MoveViolation::JumpTooShort)
                } else if !spec_grasshopper_ok(board, start, dest) {
                    Err(MoveViolation::JumpOverEmpty)
                } else {
                    Ok(())
                },
                PieceType::Spider => if board.spider_reachable(Some(start), start, dest) {
                    Ok(())
                } else {
                    Err(MoveViolation::NoSpiderPath)
                },
            }
        }
    }

    /// A move is legal when the placement or relocation rules accept it.
    pub open spec fn spec_validate(self, color: PlayerColor, game_move: Move) -> Result<(), MoveViolation> {
        match game_move {
            Move::SetMove { piece, destination } =>
                self.spec_validate_set(color, piece, destination.acoords()),
            Move::DragMove { start, destination } =>
                self.spec_validate_drag(color, start.acoords(), destination.acoords()),
        }
    }

    /// Validates a placement.
    fn validate_set_move(&self, color: PlayerColor, piece: Piece, dest: AxialCoords) -> (r: Result<(), MoveViolation>)
        requires
            self.wf(),
        ensures
            r == self.spec_validate_set(color, piece, dest),
    {
        proof {
            reveal(GameState::spec_validate_set);
        }
        let opponent = color.opponent();
        let dest_field = match self.board.field(dest) {
            Some(f) => f,
            None => {
                return Err(MoveViolation::DestinationOutOfBounds);
            },
        };
        proof {
            let i = self.board.fields.spec_index_of(dest);
            assert(crate::game::fields::coords_ok(self.board.s()[i].acoords()));
        }
        let owned = self.board.fields_owned_by(color);
        if dest_field.is_obstructed() {
            Err(MoveViolation::DestinationObstructed)
        } else if !self.board.has_pieces() {
            Ok(())
        } else if owned.len() == 0 {
            proof {
                if exists|c: AxialCoords| #[trigger] self.board.owned_at(c, color) {
                    let c = choose|c: AxialCoords| #[trigger] self.board.owned_at(c, color);
                    let i = self.board.fields.spec_index_of(c);
                    assert(self.board.s()[i].spec_owner() == Some(color));
                }
            }
            if self.board.is_next_to(opponent, dest) {
                Ok(())
            } else {
                Err(MoveViolation::NotNextToOpponent)
            }
        } else {
            proof {
                let f0 = owned@[0];
                let i = choose|i: int| 0 <= i < self.board.s().len() && *f0 == self.board.s()[i];
                let c = f0.acoords();
                assert(self.board.s()[i].acoords() == c);
                assert(self.board.fields.spec_index_of(c) == i);
                assert(self.board.owned_at(c, color));
            }
            if self.round() == 3 && !self.board.has_placed_bee(color)
                && !(piece.piece_type == PieceType::Bee) {
                Err(MoveViolation::BeeRequired)
            } else if !self.undeployed_pieces(color).contains(&piece) {
                Err(MoveViolation::PieceNotUndeployed)
            } else if !self.board.is_next_to(color, dest) {
                Err(MoveViolation::NotNextToOwn)
            } else if self.board.is_next_to(opponent, dest) {
                Err(MoveViolation::NextToOpponent)
            } else {
                Ok(())
            }
        }
    }

    /// Validates a relocation.
    fn validate_drag_move(&self, color: PlayerColor, start: AxialCoords, dest: AxialCoords) -> (r: Result<(), MoveViolation>)
        requires
            self.wf(),
        ensures
            r == self.spec_validate_drag(color, start, dest),
    {
        proof {
            reveal(GameState::spec_validate_drag);
        }
        let board = &self.board;
        if !board.has_placed_bee(color) {
            return Err(MoveViolation::BeeNotPlaced);
        }
        let start_field = match board.field(start) {
            Some(f) => f.duplicate(),
            None => {
                return Err(MoveViolation::StartOutOfBounds);
            },
        };
        if !board.contains_coords(dest) {
            return Err(MoveViolation::DestinationOutOfBounds);
        }
        proof {
            let i = board.fields.spec_index_of(start);
            assert(crate::game::fields::coords_ok(board.s()[i].acoords()));
            let j = board.fields.spec_index_of(dest);
            assert(crate::game::fields::coords_ok(board.s()[j].acoords()));
        }
        let dragged = match start_field.piece() {
            Some(p) => p,
            None => {
                return Err(MoveViolation::NoPieceToMove);
            },
        };
        if !(dragged.owner == color) {
            return Err(MoveViolation::OpponentPiece);
        }
        if start.x == dest.x && start.y == dest.y {
            return Err(MoveViolation::SamePosition);
        }
        let dest_occupied = match board.field(dest) {
            Some(f) => f.is_occupied(),
            None => true,
        };
        if dest_occupied && !(dragged.piece_type == PieceType::Beetle) {
            return Err(MoveViolation::OnlyBeetlesClimb);
        }
        if !board.swarm_connected_after_removal(start) {
            return Err(MoveViolation::DisconnectsSwarm);
        }
        match dragged.piece_type {
            PieceType::Ant => {
                if board.connected_by_boundary_path_except(Some(start), start, dest) {
                    Ok(())
                } else {
                    Err(MoveViolation::NoAntPath)
                }
            },
            PieceType::Bee => {
                if !start.is_adjacent_to(dest) {
                    Err(MoveViolation::NotAdjacent)
                } else if board.can_move_between_except(Some(start), start, dest) {
                    Ok(())
                } else {
                    Err(MoveViolation::CannotSlide)
                }
            },
            PieceType::Beetle => {
                if !start.is_adjacent_to(dest) {
                    Err(MoveViolation::NotAdjacent)
                } else if self.beetle_touches_swarm(start, dest) {
                    Ok(())
                } else {
                    Err(MoveViolation::BeetleMustTouchSwarm)
                }
            },
            PieceType::Grasshopper => {
                if !(start.x == dest.x || start.y == dest.y
                    || (start.x as i64) + (start.y as i64) == (dest.x as i64) + (dest.y as i64)) {
                    Err(MoveViolation::NotInLine)
                } else if start.is_adjacent_to(dest) {
                    Err(MoveViolation::JumpTooShort)
                } else if !self.grasshopper_jump_clear(start, dest) {
                    Err(MoveViolation::JumpOverEmpty)
                } else {
                    Ok(())
                }
            },
            PieceType::Spider => {
                if board.bfs_reachable_in_3_steps(start, dest) {
                    Ok(())
                } else {
                    Err(MoveViolation::NoSpiderPath)
                }
            },
        }
    }

    /// Tests the beetle's contact rule: a common neighbor holds pieces or
    /// the destination itself does.
    fn beetle_touches_swarm(&self, start: AxialCoords, dest: AxialCoords) -> (r: bool)
        requires
            self.wf(),
            start.in_range(),
            dest.in_range(),
        ensures
            r == ((exists|i: int|
                0 <= i < 6 && #[trigger] self.board.shared_at(start, dest, i)
                    && self.board.pieces_at(start.spec_neighbors()[i]))
                || self.board.at(dest).pieces@.len() > 0 && self.board.has(dest)),
    {
        let board = &self.board;
        let dest_has = match board.field(dest) {
            Some(f) => f.has_pieces(),
            None => false,
        };
        let nbs = start.coord_neighbors();
        let mut found = false;
        let ghost mut wit: int = 0;
        let mut i: usize = 0;
        while i < 6
            invariant
                self.wf(),
                start.in_range(),
                dest.in_range(),
                nbs@ == start.spec_neighbors(),
                i <= 6,
                found ==> 0 <= wit < i && self.board.shared_at(start, dest, wit)
                    && self.board.pieces_at(start.spec_neighbors()[wit]),
                !found ==> forall|j: int| 0 <= j < i && #[trigger] self.board.shared_at(start, dest, j)
                    ==> !self.board.pieces_at(start.spec_neighbors()[j]),
            decreases 6 - i,
        {
            let d = nbs[i];
            if dest.is_adjacent_to(d) {
                match self.board.field(d) {
                    Some(f) => {
                        proof {
                            assert(self.board.shared_at(start, dest, i as int));
                        }
                        if f.has_pieces() && !found {
                            found = true;
                            proof {
                                wit = i as int;
                            }
                        }
                    },
                    None => {
                        proof {
                            assert(!self.board.shared_at(start, dest, i as int));
                        }
                    },
                }
            } else {
                proof {
                    assert(!self.board.shared_at(start, dest, i as int));
                }
            }
            i += 1;
        }
        found || dest_has
    }

    /// Walks the straight line between the two cells and tests that no
    /// existing empty cell lies strictly between them.
    fn grasshopper_jump_clear(&self, start: AxialCoords, dest: AxialCoords) -> (r: bool)
        requires
            self.wf(),
            start.in_range(),
            dest.in_range(),
            spec_forms_line(start, dest),
            start != dest,
        ensures
            r == hop_clear_from(
                self.board,
                start.x + spec_sign(dest.x - start.x),
                start.y + spec_sign(dest.y - start.y),
                dest.x as int,
                dest.y as int,
                spec_sign(dest.x - start.x),
                spec_sign(dest.y - start.y),
            ),
    {
        let sx: i32 = if dest.x > start.x { 1 } else if dest.x < start.x { -1 } else { 0 };
        let sy: i32 = if dest.y > start.y { 1 } else if dest.y < start.y { -1 } else { 0 };
        let mut cx: i32 = start.x + sx;
        let mut cy: i32 = start.y + sy;
        while !(cx == dest.x && cy == dest.y)
            invariant
                self.wf(),
                sx == spec_sign(dest.x - start.x),
                sy == spec_sign(dest.y - start.y),
                start.in_range(),
                dest.in_range(),
                start != dest,
                (cx == dest.x && cy == dest.y)
                    || (sx == spec_sign(dest.x - cx) && sy == spec_sign(dest.y - cy)),
                sx == 0 ==> cx == dest.x,
                sy == 0 ==> cy == dest.y,
                sx != 0 && sy != 0 ==> cx + cy == dest.x + dest.y,
                (sx != 0 || sy != 0),
                -0x4000_0000 < cx < 0x4000_0000,
                -0x4000_0000 < cy < 0x4000_0000,
                hop_clear_from(self.board, start.x + spec_sign(dest.x - start.x),
                    start.y + spec_sign(dest.y - start.y), dest.x as int, dest.y as int,
                    spec_sign(dest.x - start.x), spec_sign(dest.y - start.y))
                    == hop_clear_from(self.board, cx as int, cy as int, dest.x as int,
                        dest.y as int, sx as int, sy as int),
            decreases spec_abs(dest.x - cx) + spec_abs(dest.y - cy),
        {
            let c = AxialCoords::new(cx, cy);
            if !self.board.is_occupied(c) {
                proof {
                    assert(!hop_clear_from(self.board, cx as int, cy as int, dest.x as int,
                        dest.y as int, sx as int, sy as int));
                }
                return false;
            }
            cx = cx + sx;
            cy = cy + sy;
        }
        true
    }

    /// Whether a placement of `color` at `c` is allowed in the current
    /// phase of the game.
    #[verifier::opaque]
    pub open spec fn set_dest_ok(self, color: PlayerColor, c: AxialCoords) -> bool {
        if !self.board.spec_has_pieces() {
            self.board.empty_at(c)
        } else if !(exists|d: AxialCoords| #[trigger] self.board.owned_at(d, color)) {
            self.board.empty_at(c) && self.board.next_to(c, color.spec_opponent())
        } else {
            self.board.empty_at(c) && self.board.next_to(c, color)
                && !self.board.next_to(c, color.spec_opponent())
        }
    }

    /// Which piece types the generator offers for placement: only the Bee
    /// while the forced-Bee gate is active, otherwise every type in the
    /// color's undeployed reserve.
    #[verifier::opaque]
    pub open spec fn spec_offered(self, color: PlayerColor, t: PieceType) -> bool {
        if !self.board.spec_contains_piece(Piece { owner: color, piece_type: PieceType::Bee })
            && self.turn / 2 == 3 {
            t == PieceType::Bee
        } else {
            self.spec_undeployed(color).contains(Piece { owner: color, piece_type: t })
        }
    }

    /// Collects the coordinates of all empty cells.
    fn empty_cell_coords(&self) -> (r: Vec<AxialCoords>)
        requires
            self.wf(),
        ensures
            forall|k: int| #![trigger r@[k]] 0 <= k < r@.len() ==> self.board.empty_at(r@[k]),
            forall|c: AxialCoords| #[trigger] self.board.empty_at(c) ==> r@.contains(c),
    {
        let empties = self.board.empty_fields();
        let mut raw: Vec<AxialCoords> = Vec::new();
        let mut i: usize = 0;
        while i < empties.len()
            invariant
                self.wf(),
                forall|k: int| #![trigger empties@[k]] 0 <= k < empties@.len()
                    ==> !empties@[k].spec_occupied() && self.board.has(empties@[k].acoords())
                        && *empties@[k] == self.board.at(empties@[k].acoords()),
                forall|c: AxialCoords| self.board.has(c) && !self.board.at(c).spec_occupied()
                    ==> exists|k: int| 0 <= k < empties@.len()
                        && (#[trigger] empties@[k]).acoords() == c,
                i <= empties@.len(),
                forall|k: int| #![trigger raw@[k]] 0 <= k < raw@.len()
                    ==> self.board.empty_at(raw@[k]),
                forall|k: int| #![trigger empties@[k]] 0 <= k < i
                    ==> raw@.contains(empties@[k].acoords()),
            decreases empties@.len() - i,
        {
            let ghost rpre = raw@;
            raw.push(empties[i].coords());
            proof {
                assert(raw@[rpre.len() as int] == empties@[i as int].acoords());
                assert(forall|k: int| 0 <= k < rpre.len() ==> raw@[k] == rpre[k]);
                assert(self.board.empty_at(empties@[i as int].acoords()));
                assert forall|k: int| #![trigger empties@[k]] 0 <= k < i + 1 implies
                    raw@.contains(empties@[k].acoords()) by {
                    if k < i {
                        let t = choose|t: int| 0 <= t < rpre.len()
                            && rpre[t] == empties@[k].acoords();
                        assert(raw@[t] == empties@[k].acoords());
                    } else {
                        assert(raw@[rpre.len() as int] == empties@[k].acoords());
                    }
                }
            }
            i += 1;
        }
        proof {
            assert forall|c: AxialCoords| #[trigger] self.board.empty_at(c) implies
                raw@.contains(c) by {
                let k = choose|k: int| 0 <= k < empties@.len()
                    && (#[trigger] empties@[k]).acoords() == c;
            }
        }
        raw
    }

    /// Collects the coordinates of all empty cells that touch a cell
    /// owned by `who`.
    fn empty_cells_next_to(&self, who: PlayerColor) -> (r: Vec<AxialCoords>)
        requires
            self.wf(),
        ensures
            forall|k: int| #![trigger r@[k]] 0 <= k < r@.len()
                ==> self.board.empty_at(r@[k]) && self.board.next_to(r@[k], who),
            forall|c: AxialCoords| self.board.empty_at(c) && #[trigger] self.board.next_to(c, who)
                ==> r@.contains(c),
    {
        let owned = self.board.fields_owned_by(who);
        let mut raw: Vec<AxialCoords> = Vec::new();
        let mut i: usize = 0;
        while i < owned.len()
            invariant
                self.wf(),
                forall|k: int| #![trigger owned@[k]] 0 <= k < owned@.len()
                    ==> owned@[k].spec_owner() == Some(who)
                        && exists|j: int| 0 <= j < self.board.s().len()
                            && *owned@[k] == self.board.s()[j],
                forall|j: int| #![trigger self.board.s()[j]] 0 <= j < self.board.s().len()
                    && self.board.s()[j].spec_owner() == Some(who)
                    ==> exists|k: int| 0 <= k < owned@.len()
                        && *owned@[k] == self.board.s()[j],
                i <= owned@.len(),
                forall|k: int| #![trigger raw@[k]] 0 <= k < raw@.len()
                    ==> self.board.empty_at(raw@[k]) && self.board.next_to(raw@[k], who),
                forall|c: AxialCoords, k: int| 0 <= k < i && self.board.empty_at(c)
                    && #[trigger] c.spec_adjacent(owned@[k].acoords())
                    ==> raw@.contains(c),
            decreases owned@.len() - i,
        {
            let c = owned[i].coords();
            proof {
                let j = choose|j: int| 0 <= j < self.board.s().len()
                    && *owned@[i as int] == self.board.s()[j];
                assert(self.board.s()[j].acoords() == c);
                assert(crate::game::fields::coords_ok(self.board.s()[j].acoords()));
                assert(self.board.fields.spec_index_of(c) == j);
                assert(self.board.owned_at(c, who));
            }
            let nbs = self.board.empty_neighbors(c);
            let ghost pre_outer = raw@;
            let mut j: usize = 0;
            while j < nbs.len()
                invariant
                    self.wf(),
                    c.in_range(),
                    self.board.owned_at(c, who),
                    forall|k: int| 0 <= k < nbs@.len()
                        ==> c.spec_adjacent((#[trigger] nbs@[k]).acoords())
                            && self.board.empty_at(nbs@[k].acoords())
                            && *nbs@[k] == self.board.at(nbs@[k].acoords()),
                    forall|d: AxialCoords| #[trigger] c.spec_adjacent(d)
                        && self.board.empty_at(d)
                        ==> exists|k: int| 0 <= k < nbs@.len()
                            && (#[trigger] nbs@[k]).acoords() == d,
                    j <= nbs@.len(),
                    raw@.len() >= pre_outer.len(),
                    forall|k: int| 0 <= k < pre_outer.len() ==> raw@[k] == pre_outer[k],
                    forall|k: int| #![trigger raw@[k]] 0 <= k < raw@.len()
                        ==> self.board.empty_at(raw@[k]) && self.board.next_to(raw@[k], who),
                    forall|k: int| #![trigger nbs@[k]] 0 <= k < j
                        ==> raw@.contains(nbs@[k].acoords()),
                decreases nbs@.len() - j,
            {
                let d = nbs[j].coords();
                let ghost rpre = raw@;
                raw.push(d);
                proof {
                    let i2 = self.board.fields.spec_index_of(d);
                    assert(crate::game::fields::coords_ok(self.board.s()[i2].acoords()));
                    crate::util::lemma_adjacent_symm(c, d);
                    assert(self.board.next_to(d, who)) by {
                        assert(d.spec_adjacent(c) && self.board.owned_at(c, who));
                    }
                    assert(raw@[rpre.len() as int] == d);
                    assert(forall|k: int| 0 <= k < rpre.len() ==> raw@[k] == rpre[k]);
                    assert forall|k: int| #![trigger nbs@[k]] 0 <= k < j + 1 implies
                        raw@.contains(nbs@[k].acoords()) by {
                        if k < j {
                            let t = choose|t: int| 0 <= t < rpre.len()
                                && rpre[t] == nbs@[k].acoords();
                            assert(raw@[t] == nbs@[k].acoords());
                        } else {
                            assert(raw@[rpre.len() as int] == nbs@[k].acoords());
                        }
                    }
                }
                j += 1;
            }
            proof {
                assert forall|d: AxialCoords, k: int| 0 <= k < i + 1
                    && self.board.empty_at(d)
                    && #[trigger] d.spec_adjacent(owned@[k].acoords())
                    implies raw@.contains(d) by {
                    if k < i {
                        let t = choose|t: int| 0 <= t < pre_outer.len() && pre_outer[t] == d;
                        assert(raw@[t] == d);
                    } else {
                        assert(owned@[k].acoords() == c);
                        let i4 = self.board.fields.spec_index_of(d);
                        assert(crate::game::fields::coords_ok(self.board.s()[i4].acoords()));
                        crate::util::lemma_adjacent_symm(c, d);
                        assert(c.spec_adjacent(d));
                        let kk = choose|kk: int| 0 <= kk < nbs@.len()
                            && (#[trigger] nbs@[kk]).acoords() == d;
                        assert(raw@.contains(nbs@[kk].acoords()));
                    }
                }
            }
            i += 1;
        }
        proof {
            assert forall|c: AxialCoords| self.board.empty_at(c)
                && #[trigger] self.board.next_to(c, who) implies raw@.contains(c) by {
                let dd = choose|dd: AxialCoords| c.spec_adjacent(dd)
                    && self.board.owned_at(dd, who);
                let jj = self.board.fields.spec_index_of(dd);
                assert(self.board.s()[jj].spec_owner() == Some(who));
                let k = choose|k: int| 0 <= k < owned@.len()
                    && *owned@[k] == self.board.s()[jj];
                assert(owned@[k].acoords() == dd);
                assert(c.spec_adjacent(owned@[k].acoords()));
            }
        }
        raw
    }

    /// The destinations of the current placement phase: exactly the cells
    /// that [`GameState::set_dest_ok`] admits, each once.
    fn phase_destinations(&self, color: PlayerColor) -> (r: Vec<AxialCoords>)
        requires
            self.wf(),
        ensures
            forall|k: int| #![trigger r@[k]] 0 <= k < r@.len() ==> self.set_dest_ok(color, r@[k]),
            forall|c: AxialCoords| #[trigger] self.set_dest_ok(color, c) ==> r@.contains(c),
            forall|k1: int, k2: int| 0 <= k1 < k2 < r@.len() ==> r@[k1] != r@[k2],
    {
        if !self.board.has_pieces() {
            let raw = self.empty_cell_coords();
            let dests = crate::game::board::unique_coords(raw);
            proof {
                reveal(GameState::set_dest_ok);
                assert forall|k: int| #![trigger dests@[k]] 0 <= k < dests@.len() implies
                    self.set_dest_ok(color, dests@[k]) by {
                    assert(dests@.contains(dests@[k]));
                    assert(raw@.contains(dests@[k]));
                    let t = choose|t: int| 0 <= t < raw@.len() && raw@[t] == dests@[k];
                }
                assert forall|c: AxialCoords| #[trigger] self.set_dest_ok(color, c) implies
                    dests@.contains(c) by {
                    assert(self.board.empty_at(c));
                    assert(raw@.contains(c));
                }
            }
            dests
        } else {
            let owned = self.board.fields_owned_by(color);
            if owned.len() == 0 {
                proof {
                    if exists|c: AxialCoords| #[trigger] self.board.owned_at(c, color) {
                        let c = choose|c: AxialCoords| #[trigger] self.board.owned_at(c, color);
                        let i = self.board.fields.spec_index_of(c);
                        assert(self.board.s()[i].spec_owner() == Some(color));
                    }
                }
                let opponent = color.opponent();
                let raw = self.empty_cells_next_to(opponent);
                let dests = crate::game::board::unique_coords(raw);
                proof {
                    reveal(GameState::set_dest_ok);
                    assert forall|k: int| #![trigger dests@[k]] 0 <= k < dests@.len() implies
                        self.set_dest_ok(color, dests@[k]) by {
                        assert(dests@.contains(dests@[k]));
                        assert(raw@.contains(dests@[k]));
                        let t = choose|t: int| 0 <= t < raw@.len() && raw@[t] == dests@[k];
                    }
                    assert forall|c: AxialCoords| #[trigger] self.set_dest_ok(color, c) implies
                        dests@.contains(c) by {
                        assert(self.board.empty_at(c)
                            && self.board.next_to(c, color.spec_opponent()));
                        assert(raw@.contains(c));
                    }
                }
                dests
            } else {
                proof {
                    let f0 = owned@[0];
                    let i = choose|i: int| 0 <= i < self.board.s().len()
                        && *f0 == self.board.s()[i];
                    let c = f0.acoords();
                    assert(self.board.s()[i].acoords() == c);
                    assert(self.board.fields.spec_index_of(c) == i);
                    assert(self.board.owned_at(c, color));
                }
                let dests = self.board.possible_set_move_destinations(color);
                proof {
                    reveal(GameState::set_dest_ok);
                    assert forall|k: int| #![trigger dests@[k]] 0 <= k < dests@.len() implies
                        self.set_dest_ok(color, dests@[k]) by {}
                    assert forall|c: AxialCoords| #[trigger] self.set_dest_ok(color, c) implies
                        dests@.contains(c) by {
                        assert(self.board.next_to(c, color));
                    }
                }
                dests
            }
        }
    }

    /// The distinct piece types the generator offers for `color`.
    fn offered_types(&self, color: PlayerColor) -> (r: Vec<PieceType>)
        requires
            self.wf(),
        ensures
            forall|j: int| #![trigger r@[j]] 0 <= j < r@.len()
                ==> self.spec_offered(color, r@[j]),
            forall|t: PieceType| #[trigger] self.spec_offered(color, t) ==> r@.contains(t),
            forall|j1: int, j2: int| 0 <= j1 < j2 < r@.len() ==> r@[j1] != r@[j2],
    {
        let bee_forced = !self.board.has_placed_bee(color) && self.round() == 3;
        let mut types: Vec<PieceType> = Vec::new();
        if bee_forced {
            types.push(PieceType::Bee);
            proof {
                reveal(GameState::spec_offered);
                assert(types@[0] == PieceType::Bee);
                assert forall|t: PieceType| #[trigger] self.spec_offered(color, t) implies
                    types@.contains(t) by {
                    assert(types@[0] == t);
                }
                assert(self.spec_offered(color, PieceType::Bee)) by {
                    if color == PlayerColor::Red {
                        assert(self.undeployed_red_pieces.pieces@.contains(
                            Piece { owner: color, piece_type: PieceType::Bee },
                        ));
                    } else {
                        assert(self.undeployed_blue_pieces.pieces@.contains(
                            Piece { owner: color, piece_type: PieceType::Bee },
                        ));
                    }
                }
            }
            return types;
        }
        let undeployed = self.undeployed_pieces(color);
        let mut i: usize = 0;
        while i < undeployed.pieces.len()
            invariant
                self.wf(),
                !(!self.board.spec_contains_piece(
                    Piece { owner: color, piece_type: PieceType::Bee },
                ) && self.turn / 2 == 3),
                undeployed.pieces@ == self.spec_undeployed(color),
                i <= self.spec_undeployed(color).len(),
                forall|j: int| #![trigger types@[j]] 0 <= j < types@.len()
                    ==> self.spec_undeployed(color).contains(
                        Piece { owner: color, piece_type: types@[j] },
                    ),
                forall|j1: int, j2: int| 0 <= j1 < j2 < types@.len()
                    ==> types@[j1] != types@[j2],
                forall|j: int| #![trigger self.spec_undeployed(color)[j]] 0 <= j < i
                    && self.spec_undeployed(color)[j].owner == color
                    ==> types@.contains(self.spec_undeployed(color)[j].piece_type),
            decreases self.spec_undeployed(color).len() - i,
        {
            let p = undeployed.pieces[i];
            if p.owner == color {
                let mut seen = false;
                let mut t: usize = 0;
                while t < types.len()
                    invariant
                        t <= types@.len(),
                        seen == exists|j: int| 0 <= j < t && types@[j] == p.piece_type,
                    decreases types@.len() - t,
                {
                    if types[t] == p.piece_type {
                        seen = true;
                        proof {
                            assert(types@[t as int] == p.piece_type);
                        }
                    }
                    t += 1;
                }
                if !seen {
                    let ghost tpre = types@;
                    types.push(p.piece_type);
                    proof {
                        assert(types@[tpre.len() as int] == p.piece_type);
                        assert(forall|k: int| 0 <= k < tpre.len() ==> types@[k] == tpre[k]);
                        assert(self.spec_undeployed(color).contains(
                            Piece { owner: color, piece_type: p.piece_type },
                        )) by {
                            assert(self.spec_undeployed(color)[i as int]
                                == (Piece { owner: color, piece_type: p.piece_type }));
                        }
                    }
                }
                proof {
                    assert(types@.contains(p.piece_type)) by {
                        if seen {
                            let j = choose|j: int| 0 <= j < types@.len()
                                && types@[j] == p.piece_type;
                        } else {
                            assert(types@.last() == p.piece_type);
                        }
                    }
                }
            }
            i += 1;
        }
        proof {
            reveal(GameState::spec_offered);
            assert forall|t: PieceType| #[trigger] self.spec_offered(color, t) implies
                types@.contains(t) by {
                let j = choose|j: int| 0 <= j < self.spec_undeployed(color).len()
                    && self.spec_undeployed(color)[j]
                        == (Piece { owner: color, piece_type: t });
                assert(self.spec_undeployed(color)[j].owner == color);
                assert(types@.contains(self.spec_undeployed(color)[j].piece_type));
            }
            assert forall|j: int| #![trigger types@[j]] 0 <= j < types@.len() implies
                self.spec_offered(color, types@[j]) by {}
        }
        types
    }

    /// Builds the placement of one offered piece type at one phase
    /// destination; it passes the validator.
    fn make_set_move(&self, color: PlayerColor, d: AxialCoords, t: PieceType) -> (m: Move)
        requires
            self.wf(),
            self.set_dest_ok(color, d),
            self.spec_offered(color, t),
        ensures
            self.spec_validate(color, m) is Ok,
            spec_set_move_parts(m) == Some((Piece { owner: color, piece_type: t }, d)),
    {
        proof {
            reveal(GameState::spec_validate_set);
            reveal(GameState::set_dest_ok);
            reveal(GameState::spec_offered);
            let i2 = self.board.fields.spec_index_of(d);
            assert(crate::game::fields::coords_ok(self.board.s()[i2].acoords()));
        }
        let dest_field = match self.board.field(d) {
            Some(f) => f.duplicate(),
            None => {
                proof {
                    assert(false);
                }
                Field::from_coords(d)
            },
        };
        let piece = Piece::new(color, t);
        let m = Move::SetMove { piece, destination: dest_field };
        proof {
            assert(m matches Move::SetMove { piece: p2, destination: d2 }
                && p2 == piece && d2.acoords() == d);
            assert(self.spec_validate_set(color, piece, d) is Ok) by {
                if !self.board.spec_contains_piece(
                    Piece { owner: color, piece_type: PieceType::Bee },
                ) && self.turn / 2 == 3 {
                    assert(piece == (Piece { owner: color, piece_type: PieceType::Bee }));
                    assert(self.spec_undeployed(color).contains(piece)) by {
                        if color == PlayerColor::Red {
                            assert(self.undeployed_red_pieces.pieces@.contains(piece));
                        } else {
                            assert(self.undeployed_blue_pieces.pieces@.contains(piece));
                        }
                    }
                }
            }
        }
        m
    }

    /// Crosses the phase destinations with the offered piece types into
    /// placements, one per pair, each passing the validator.
    fn cross_set_moves(&self, color: PlayerColor, dests: &Vec<AxialCoords>, types: &Vec<PieceType>) -> (r: Vec<Move>)
        requires
            self.wf(),
            forall|k: int| #![trigger dests@[k]] 0 <= k < dests@.len()
                ==> self.set_dest_ok(color, dests@[k]),
            forall|k1: int, k2: int| 0 <= k1 < k2 < dests@.len() ==> dests@[k1] != dests@[k2],
            forall|j: int| #![trigger types@[j]] 0 <= j < types@.len()
                ==> self.spec_offered(color, types@[j]),
            forall|j1: int, j2: int| 0 <= j1 < j2 < types@.len() ==> types@[j1] != types@[j2],
        ensures
            forall|k: int| 0 <= k < r@.len()
                ==> (#[trigger] self.spec_validate(color, r@[k])) is Ok,
            forall|k: int| 0 <= k < r@.len()
                ==> (match spec_set_move_parts(#[trigger] r@[k]) {
                    Some(p) => p.0.owner == color && self.set_dest_ok(color, p.1)
                        && self.spec_offered(color, p.0.piece_type),
                    None => false,
                }),
            forall|ci: int, tj: int| #![trigger dests@[ci], types@[tj]]
                0 <= ci < dests@.len() && 0 <= tj < types@.len()
                ==> exists|k: int| 0 <= k < r@.len()
                    && spec_set_move_parts(r@[k]) == Some((
                        Piece { owner: color, piece_type: types@[tj] },
                        dests@[ci],
                    )),
            forall|k1: int, k2: int| 0 <= k1 < k2 < r@.len()
                ==> spec_set_move_parts(r@[k1]) != spec_set_move_parts(r@[k2]),
    {
        let mut moves: Vec<Move> = Vec::new();
        let mut i: usize = 0;
        while i < dests.len()
            invariant
                self.wf(),
                forall|k: int| #![trigger dests@[k]] 0 <= k < dests@.len()
                    ==> self.set_dest_ok(color, dests@[k]),
                forall|k1: int, k2: int| 0 <= k1 < k2 < dests@.len()
                    ==> dests@[k1] != dests@[k2],
                forall|j: int| #![trigger types@[j]] 0 <= j < types@.len()
                    ==> self.spec_offered(color, types@[j]),
                forall|j1: int, j2: int| 0 <= j1 < j2 < types@.len()
                    ==> types@[j1] != types@[j2],
                i <= dests@.len(),
                forall|k: int| 0 <= k < moves@.len()
                    ==> (#[trigger] self.spec_validate(color, moves@[k])) is Ok,
                forall|k: int| #![trigger moves@[k]] 0 <= k < moves@.len()
                    ==> spec_set_move_parts(moves@[k]) is Some
                        && (match spec_set_move_parts(moves@[k]) {
                            Some(p) => p.0.owner == color && self.set_dest_ok(color, p.1)
                                && self.spec_offered(color, p.0.piece_type),
                            None => false,
                        }),
                forall|k: int| #![trigger moves@[k]] 0 <= k < moves@.len()
                    ==> exists|ci: int| 0 <= ci < i
                        && spec_set_move_parts(moves@[k])->Some_0.1 == dests@[ci],
                forall|k1: int, k2: int| 0 <= k1 < k2 < moves@.len()
                    ==> spec_set_move_parts(moves@[k1]) != spec_set_move_parts(moves@[k2]),
                forall|ci: int, tj: int| #![trigger dests@[ci], types@[tj]]
                    0 <= ci < i && 0 <= tj < types@.len()
                    ==> exists|k: int| 0 <= k < moves@.len()
                        && spec_set_move_parts(moves@[k]) == Some((
                            Piece { owner: color, piece_type: types@[tj] },
                            dests@[ci],
                        )),
            decreases dests@.len() - i,
        {
            let d = dests[i];
            let ghost base = moves@.len() as int;
            let ghost moves_outer = moves@;
            let mut j: usize = 0;
            while j < types.len()
                invariant
                    self.wf(),
                    i < dests@.len(),
                    d == dests@[i as int],
                    base == moves_outer.len(),
                    forall|k: int| #![trigger dests@[k]] 0 <= k < dests@.len()
                        ==> self.set_dest_ok(color, dests@[k]),
                    forall|k1: int, k2: int| 0 <= k1 < k2 < dests@.len()
                        ==> dests@[k1] != dests@[k2],
                    forall|jj: int| #![trigger types@[jj]] 0 <= jj < types@.len()
                        ==> self.spec_offered(color, types@[jj]),
                    forall|j1: int, j2: int| 0 <= j1 < j2 < types@.len()
                        ==> types@[j1] != types@[j2],
                    j <= types@.len(),
                    moves@.len() == base + j,
                    forall|k: int| 0 <= k < base ==> moves@[k] == moves_outer[k],
                    forall|dk: int| 0 <= dk < j
                        ==> spec_set_move_parts(#[trigger] moves@[base + dk]) == Some((
                            Piece { owner: color, piece_type: types@[dk] },
                            d,
                        )),
                    forall|k: int| 0 <= k < moves@.len()
                        ==> (#[trigger] self.spec_validate(color, moves@[k])) is Ok,
                    forall|k: int| #![trigger moves@[k]] 0 <= k < moves@.len()
                        ==> spec_set_move_parts(moves@[k]) is Some
                            && (match spec_set_move_parts(moves@[k]) {
                                Some(p) => p.0.owner == color && self.set_dest_ok(color, p.1)
                                    && self.spec_offered(color, p.0.piece_type),
                                None => false,
                            }),
                    forall|k: int| #![trigger moves@[k]] 0 <= k < base
                        ==> exists|ci: int| 0 <= ci < i
                            && spec_set_move_parts(moves@[k])->Some_0.1 == dests@[ci],
                    forall|k1: int, k2: int| 0 <= k1 < k2 < moves@.len()
                        ==> spec_set_move_parts(moves@[k1]) != spec_set_move_parts(moves@[k2]),
                    forall|ci: int, tj: int| #![trigger dests@[ci], types@[tj]]
                        0 <= ci < i && 0 <= tj < types@.len()
                        ==> exists|k: int| 0 <= k < moves@.len()
                            && spec_set_move_parts(moves@[k]) == Some((
                                Piece { owner: color, piece_type: types@[tj] },
                                dests@[ci],
                            )),
                decreases types@.len() - j,
            {
                let m = self.make_set_move(color, d, types[j]);
                let ghost mpre = moves@;
                moves.push(m);
                proof {
                    assert(forall|k: int| 0 <= k < mpre.len() ==> moves@[k] == mpre[k]);
                    assert(spec_set_move_parts(moves@[base + j]) == Some((
                        Piece { owner: color, piece_type: types@[j as int] },
                        d,
                    )));
                    assert forall|k1: int, k2: int| 0 <= k1 < k2 < moves@.len() implies
                        spec_set_move_parts(moves@[k1]) != spec_set_move_parts(moves@[k2]) by {
                        if k2 == moves@.len() - 1 {
                            if k1 < base {
                                let ci = choose|ci: int| 0 <= ci < i
                                    && spec_set_move_parts(moves@[k1])->Some_0.1 == dests@[ci];
                                assert(dests@[ci] != d);
                            } else {
                                let dk = k1 - base;
                                assert(spec_set_move_parts(moves@[base + dk]) == Some((
                                    Piece { owner: color, piece_type: types@[dk] },
                                    d,
                                )));
                                assert(types@[dk] != types@[j as int]);
                            }
                        }
                    }
                }
                j += 1;
            }
            proof {
                assert forall|k: int| #![trigger moves@[k]] 0 <= k < moves@.len() implies
                    exists|ci: int| 0 <= ci < i + 1
                        && spec_set_move_parts(moves@[k])->Some_0.1 == dests@[ci] by {
                    if k < base {
                        let ci = choose|ci: int| 0 <= ci < i
                            && spec_set_move_parts(moves@[k])->Some_0.1 == dests@[ci];
                    } else {
                        let dk = k - base;
                        assert(spec_set_move_parts(moves@[base + dk]) == Some((
                            Piece { owner: color, piece_type: types@[dk] },
                            d,
                        )));
                        assert(spec_set_move_parts(moves@[k])->Some_0.1 == dests@[i as int]);
                    }
                }
                assert forall|ci: int, tj: int| #![trigger dests@[ci], types@[tj]]
                    0 <= ci < i + 1 && 0 <= tj < types@.len()
                    implies exists|k: int| 0 <= k < moves@.len()
                        && spec_set_move_parts(moves@[k]) == Some((
                            Piece { owner: color, piece_type: types@[tj] },
                            dests@[ci],
                        )) by {
                    if ci < i {
                        let k = choose|k: int| 0 <= k < moves_outer.len()
                            && spec_set_move_parts(#[trigger] moves_outer[k]) == Some((
                                Piece { owner: color, piece_type: types@[tj] },
                                dests@[ci],
                            ));
                        assert(spec_set_move_parts(moves@[k]) == Some((
                            Piece { owner: color, piece_type: types@[tj] },
                            dests@[ci],
                        )));
                    } else {
                        assert(spec_set_move_parts(moves@[base + tj]) == Some((
                            Piece { owner: color, piece_type: types@[tj] },
                            d,
                        )));
                    }
                }
            }
            i += 1;
        }
        proof {
            assert forall|ci: int, tj: int| #![trigger dests@[ci], types@[tj]]
                0 <= ci < dests@.len() && 0 <= tj < types@.len()
                implies exists|k: int| 0 <= k < moves@.len()
                    && spec_set_move_parts(moves@[k]) == Some((
                        Piece { owner: color, piece_type: types@[tj] },
                        dests@[ci],
                    )) by {
                let k = choose|k: int| 0 <= k < moves@.len()
                    && spec_set_move_parts(#[trigger] moves@[k]) == Some((
                        Piece { owner: color, piece_type: types@[tj] },
                        dests@[ci],
                    ));
            }
        }
        moves
    }

    /// Fetches a list of possible placements: for each destination of the
    /// current game phase and each offered piece type exactly one
    /// placement, and every one of them passes the validator.
    fn possible_set_moves(&self, color: PlayerColor) -> (r: Vec<Move>)
        requires
            self.wf(),
        ensures
            forall|k: int| 0 <= k < r@.len()
                ==> (#[trigger] self.spec_validate(color, r@[k])) is Ok,
            forall|k: int| 0 <= k < r@.len()
                ==> (match spec_set_move_parts(#[trigger] r@[k]) {
                    Some(p) => p.0.owner == color && self.set_dest_ok(color, p.1)
                        && self.spec_offered(color, p.0.piece_type),
                    None => false,
                }),
            forall|c: AxialCoords, t: PieceType|
                #![trigger self.set_dest_ok(color, c), self.spec_offered(color, t)]
                self.set_dest_ok(color, c) && self.spec_offered(color, t)
                ==> exists|k: int| 0 <= k < r@.len()
                    && spec_set_move_parts(r@[k])
                        == Some((Piece { owner: color, piece_type: t }, c)),
            forall|k1: int, k2: int| 0 <= k1 < k2 < r@.len()
                ==> spec_set_move_parts(r@[k1]) != spec_set_move_parts(r@[k2]),
    {
        let dests = self.phase_destinations(color);
        let types = self.offered_types(color);
        let moves = self.cross_set_moves(color, &dests, &types);
        proof {
            assert forall|c: AxialCoords, t: PieceType|
                #![trigger self.set_dest_ok(color, c), self.spec_offered(color, t)]
                self.set_dest_ok(color, c) && self.spec_offered(color, t)
                implies exists|k: int| 0 <= k < moves@.len()
                    && spec_set_move_parts(moves@[k])
                        == Some((Piece { owner: color, piece_type: t }, c)) by {
                assert(dests@.contains(c));
                let ci = choose|ci: int| 0 <= ci < dests@.len() && dests@[ci] == c;
                assert(types@.contains(t));
                let tj = choose|tj: int| 0 <= tj < types@.len() && types@[tj] == t;
                assert(exists|k: int| 0 <= k < moves@.len()
                    && spec_set_move_parts(moves@[k]) == Some((
                        Piece { owner: color, piece_type: types@[tj] },
                        dests@[ci],
                    )));
            }
        }
        moves
    }

    /// Validates one start cell against a list of candidate target cells
    /// and appends every accepted relocation.
    fn drag_candidates_into(
        &self,
        color: PlayerColor,
        start_field: &Field,
        targets: &Vec<Field>,
        moves: &mut Vec<Move>,
    )
        requires
            self.wf(),
            forall|k: int| 0 <= k < old(moves)@.len()
                ==> (#[trigger] self.spec_validate(color, old(moves)@[k])) is Ok,
            forall|k: int| 0 <= k < old(moves)@.len()
                ==> (#[trigger] spec_drag_move_parts(old(moves)@[k])) is Some,
        ensures
            final(moves)@.len() >= old(moves)@.len(),
            forall|k: int| 0 <= k < old(moves)@.len()
                ==> final(moves)@[k] == old(moves)@[k],
            forall|k: int| 0 <= k < final(moves)@.len()
                ==> (#[trigger] self.spec_validate(color, final(moves)@[k])) is Ok,
            forall|k: int| 0 <= k < final(moves)@.len()
                ==> (#[trigger] spec_drag_move_parts(final(moves)@[k])) is Some,
            forall|t: int| #![trigger targets@[t]] 0 <= t < targets@.len()
                && self.spec_validate_drag(
                    color,
                    start_field.acoords(),
                    targets@[t].acoords(),
                ) is Ok
                ==> exists|k: int| 0 <= k < final(moves)@.len()
                    && spec_drag_move_parts(final(moves)@[k])
                        == Some((start_field.acoords(), targets@[t].acoords())),
    {
        let ghost start = start_field.acoords();
        let ghost base = moves@;
        let mut j: usize = 0;
        while j < targets.len()
            invariant
                self.wf(),
                start == start_field.acoords(),
                j <= targets@.len(),
                moves@.len() >= base.len(),
                forall|k: int| 0 <= k < base.len() ==> moves@[k] == base[k],
                forall|k: int| 0 <= k < moves@.len()
                    ==> (#[trigger] self.spec_validate(color, moves@[k])) is Ok,
                forall|k: int| 0 <= k < moves@.len()
                    ==> (#[trigger] spec_drag_move_parts(moves@[k])) is Some,
                forall|t: int| #![trigger targets@[t]] 0 <= t < j
                    && self.spec_validate_drag(color, start, targets@[t].acoords()) is Ok
                    ==> exists|k: int| 0 <= k < moves@.len()
                        && spec_drag_move_parts(moves@[k])
                            == Some((start, targets@[t].acoords())),
            decreases targets@.len() - j,
        {
            let candidate = Move::DragMove {
                start: start_field.duplicate(),
                destination: targets[j].duplicate(),
            };
            let ghost dd = targets@[j as int].acoords();
            proof {
                assert(candidate matches Move::DragMove { start: s2, destination: d2 }
                    && s2.acoords() == start && d2.acoords() == dd);
                assert(spec_drag_move_parts(candidate) == Some((start, dd)));
            }
            match self.validate_move(color, &candidate) {
                Ok(_) => {
                    let ghost mpre = moves@;
                    moves.push(candidate);
                    proof {
                        assert(forall|k: int| 0 <= k < mpre.len() ==> moves@[k] == mpre[k]);
                        assert(spec_drag_move_parts(moves@[mpre.len() as int])
                            == Some((start, dd)));
                        assert forall|t: int| #![trigger targets@[t]] 0 <= t < j + 1
                            && self.spec_validate_drag(color, start,
                                targets@[t].acoords()) is Ok
                            implies exists|k: int| 0 <= k < moves@.len()
                                && spec_drag_move_parts(moves@[k])
                                    == Some((start, targets@[t].acoords())) by {
                            if t < j {
                                let k = choose|k: int| 0 <= k < mpre.len()
                                    && spec_drag_move_parts(#[trigger] mpre[k])
                                        == Some((start, targets@[t].acoords()));
                                assert(spec_drag_move_parts(moves@[k])
                                    == Some((start, targets@[t].acoords())));
                            } else {
                                assert(spec_drag_move_parts(moves@[mpre.len() as int])
                                    == Some((start, targets@[t].acoords())));
                            }
                        }
                    }
                },
                Err(_) => {
                    proof {
                        assert(!(self.spec_validate_drag(color, start, dd) is Ok));
                    }
                },
            }
            j += 1;
        }
    }

    /// Fetches a list of possible relocations: for every cell owned by
    /// the color, each candidate destination (a swarm-boundary cell, or
    /// any board neighbor when a beetle moves) that the validator accepts
    /// appears, and every returned move passes the validator.
    fn possible_drag_moves(&self, color: PlayerColor) -> (r: Vec<Move>)
        requires
            self.wf(),
        ensures
            forall|k: int| 0 <= k < r@.len()
                ==> (#[trigger] self.spec_validate(color, r@[k])) is Ok,
            forall|k: int| 0 <= k < r@.len()
                ==> (#[trigger] spec_drag_move_parts(r@[k])) is Some,
            forall|s: AxialCoords, dd: AxialCoords|
                #![trigger self.board.owned_at(s, color), self.spec_validate_drag(color, s, dd)]
                self.board.owned_at(s, color)
                && (self.board.boundary_at(dd)
                    || (self.board.at(s).pieces@.len() > 0
                        && self.board.at(s).pieces@.last().piece_type == PieceType::Beetle
                        && s.spec_adjacent(dd) && self.board.has(dd)))
                && self.spec_validate_drag(color, s, dd) is Ok
                ==> exists|k: int| 0 <= k < r@.len()
                    && spec_drag_move_parts(#[trigger] r@[k]) == Some((s, dd)),
    {
        let owned = self.board.fields_owned_by(color);
        let mut moves: Vec<Move> = Vec::new();
        let mut i: usize = 0;
        while i < owned.len()
            invariant
                self.wf(),
                forall|k: int| #![trigger owned@[k]] 0 <= k < owned@.len()
                    ==> owned@[k].spec_owner() == Some(color)
                        && exists|j: int| 0 <= j < self.board.s().len()
                            && *owned@[k] == self.board.s()[j],
                i <= owned@.len(),
                forall|k: int| 0 <= k < moves@.len()
                    ==> (#[trigger] self.spec_validate(color, moves@[k])) is Ok,
                forall|k: int| 0 <= k < moves@.len()
                    ==> (#[trigger] spec_drag_move_parts(moves@[k])) is Some,
                forall|ki: int, dd: AxialCoords|
                    #![trigger owned@[ki].acoords(), self.spec_validate_drag(color, owned@[ki].acoords(), dd)]
                    0 <= ki < i
                    && (self.board.boundary_at(dd)
                        || (self.board.at(owned@[ki].acoords()).pieces@.len() > 0
                            && self.board.at(owned@[ki].acoords()).pieces@.last().piece_type
                                == PieceType::Beetle
                            && owned@[ki].acoords().spec_adjacent(dd) && self.board.has(dd)))
                    && self.spec_validate_drag(color, owned@[ki].acoords(), dd) is Ok
                    ==> exists|k: int| 0 <= k < moves@.len()
                        && spec_drag_move_parts(#[trigger] moves@[k])
                            == Some((owned@[ki].acoords(), dd)),
            decreases owned@.len() - i,
        {
            let start_field = owned[i].duplicate();
            let start = start_field.coords();
            proof {
                let j = choose|j: int| 0 <= j < self.board.s().len()
                    && *owned@[i as int] == self.board.s()[j];
                assert(self.board.s()[j].acoords() == start);
                assert(crate::game::fields::coords_ok(self.board.s()[j].acoords()));
                assert(self.board.fields.spec_index_of(start) == j);
                assert(self.board.at(start) == *owned@[i as int]);
            }
            let boundary = self.board.swarm_boundary();
            let mut targets_bd: Vec<Field> = Vec::new();
            let mut j: usize = 0;
            while j < boundary.len()
                invariant
                    self.wf(),
                    forall|k: int| #![trigger boundary@[k]] 0 <= k < boundary@.len()
                        ==> self.board.boundary_at(boundary@[k].acoords()),
                    forall|c: AxialCoords| #[trigger] self.board.boundary_at(c)
                        ==> exists|k: int| 0 <= k < boundary@.len()
                            && (#[trigger] boundary@[k]).acoords() == c,
                    j <= boundary@.len(),
                    targets_bd@.len() == j,
                    forall|t: int| #![trigger targets_bd@[t]] 0 <= t < j
                        ==> targets_bd@[t].acoords() == boundary@[t].acoords(),
                decreases boundary@.len() - j,
            {
                let ghost tpre = targets_bd@;
                targets_bd.push(boundary[j].duplicate());
                proof {
                    assert(forall|t: int| 0 <= t < tpre.len() ==> targets_bd@[t] == tpre[t]);
                    assert(targets_bd@[j as int].acoords() == boundary@[j as int].acoords());
                }
                j += 1;
            }
            let ghost moves_outer = moves@;
            self.drag_candidates_into(color, &start_field, &targets_bd, &mut moves);
            let ghost moves_mid = moves@;
            let is_beetle = match start_field.piece() {
                Some(p) => p.piece_type == PieceType::Beetle,
                None => false,
            };
            if is_beetle {
                let nbs = self.board.neighbors(start);
                let mut targets_nb: Vec<Field> = Vec::new();
                let mut j: usize = 0;
                while j < nbs.len()
                    invariant
                        self.wf(),
                        forall|k: int| 0 <= k < nbs@.len()
                            ==> start.spec_adjacent((#[trigger] nbs@[k]).acoords())
                                && self.board.has(nbs@[k].acoords()),
                        forall|d: AxialCoords| #[trigger] start.spec_adjacent(d)
                            && self.board.has(d)
                            ==> exists|k: int| 0 <= k < nbs@.len()
                                && (#[trigger] nbs@[k]).acoords() == d,
                        j <= nbs@.len(),
                        targets_nb@.len() == j,
                        forall|t: int| #![trigger targets_nb@[t]] 0 <= t < j
                            ==> targets_nb@[t].acoords() == nbs@[t].acoords(),
                    decreases nbs@.len() - j,
                {
                    let ghost tpre = targets_nb@;
                    targets_nb.push(nbs[j].duplicate());
                    proof {
                        assert(forall|t: int| 0 <= t < tpre.len() ==> targets_nb@[t] == tpre[t]);
                        assert(targets_nb@[j as int].acoords() == nbs@[j as int].acoords());
                    }
                    j += 1;
                }
                self.drag_candidates_into(color, &start_field, &targets_nb, &mut moves);
                proof {
                    assert forall|d: AxialCoords| #[trigger] start.spec_adjacent(d)
                        && self.board.has(d)
                        && self.spec_validate_drag(color, start, d) is Ok implies
                        exists|k: int| 0 <= k < moves@.len()
                            && spec_drag_move_parts(#[trigger] moves@[k]) == Some((start, d)) by {
                        let kk = choose|kk: int| 0 <= kk < nbs@.len()
                            && (#[trigger] nbs@[kk]).acoords() == d;
                        assert(targets_nb@[kk].acoords() == d);
                        assert(self.spec_validate_drag(color, start,
                            targets_nb@[kk].acoords()) is Ok);
                    }
                }
            }
            proof {
                assert forall|c: AxialCoords| #[trigger] self.board.boundary_at(c)
                    && self.spec_validate_drag(color, start, c) is Ok implies
                    exists|k: int| 0 <= k < moves@.len()
                        && spec_drag_move_parts(#[trigger] moves@[k]) == Some((start, c)) by {
                    let kk = choose|kk: int| 0 <= kk < boundary@.len()
                        && (#[trigger] boundary@[kk]).acoords() == c;
                    assert(targets_bd@[kk].acoords() == c);
                    assert(self.spec_validate_drag(color, start,
                        targets_bd@[kk].acoords()) is Ok);
                    let k = choose|k: int| 0 <= k < moves_mid.len()
                        && spec_drag_move_parts(#[trigger] moves_mid[k])
                            == Some((start, targets_bd@[kk].acoords()));
                    assert(moves@[k] == moves_mid[k]);
                }
            }
            proof {
                assert forall|ki: int, dd: AxialCoords|
                    #![trigger owned@[ki].acoords(), self.spec_validate_drag(color, owned@[ki].acoords(), dd)]
                    0 <= ki < i + 1
                    && (self.board.boundary_at(dd)
                        || (self.board.at(owned@[ki].acoords()).pieces@.len() > 0
                            && self.board.at(owned@[ki].acoords()).pieces@.last().piece_type
                                == PieceType::Beetle
                            && owned@[ki].acoords().spec_adjacent(dd) && self.board.has(dd)))
                    && self.spec_validate_drag(color, owned@[ki].acoords(), dd) is Ok
                    implies exists|k: int| 0 <= k < moves@.len()
                        && spec_drag_move_parts(#[trigger] moves@[k])
                            == Some((owned@[ki].acoords(), dd)) by {
                    if ki < i {
                        let k = choose|k: int| 0 <= k < moves_outer.len()
                            && spec_drag_move_parts(#[trigger] moves_outer[k])
                                == Some((owned@[ki].acoords(), dd));
                        assert(spec_drag_move_parts(moves@[k])
                            == Some((owned@[ki].acoords(), dd)));
                    } else {
                        assert(owned@[ki].acoords() == start);
                        if self.board.boundary_at(dd) {
                            assert(self.spec_validate_drag(color, start, dd) is Ok);
                        } else {
                            assert(self.board.at(start).pieces@.last().piece_type
                                == PieceType::Beetle);
                            assert(is_beetle) by {
                                assert(self.board.at(start) == *owned@[i as int]);
                            }
                            assert(start.spec_adjacent(dd) && self.board.has(dd));
                            assert(self.spec_validate_drag(color, start, dd) is Ok);
                        }
                    }
                }
            }
            i += 1;
        }
        proof {
            assert forall|s: AxialCoords, dd: AxialCoords|
                #![trigger self.board.owned_at(s, color), self.spec_validate_drag(color, s, dd)]
                self.board.owned_at(s, color)
                && (self.board.boundary_at(dd)
                    || (self.board.at(s).pieces@.len() > 0
                        && self.board.at(s).pieces@.last().piece_type == PieceType::Beetle
                        && s.spec_adjacent(dd) && self.board.has(dd)))
                && self.spec_validate_drag(color, s, dd) is Ok
                implies exists|k: int| 0 <= k < moves@.len()
                    && spec_drag_move_parts(#[trigger] moves@[k]) == Some((s, dd)) by {
                let sj = self.board.fields.spec_index_of(s);
                assert(self.board.s()[sj].spec_owner() == Some(color));
                let ki = choose|ki: int| 0 <= ki < owned@.len()
                    && *owned@[ki] == self.board.s()[sj];
                assert(owned@[ki].acoords() == s);
                assert(self.spec_validate_drag(color, owned@[ki].acoords(), dd) is Ok);
            }
        }
        moves
    }

    /// Fetches a list of all possible moves for a given color: the
    /// placements followed by the relocations. Every move returned
    /// independently passes the validator, every phase placement of an
    /// offered piece type appears, and so does every accepted relocation
    /// from an owned cell to a boundary or beetle-neighbor candidate.
    pub fn possible_moves(&self, color: PlayerColor) -> (r: Vec<Move>)
        requires
            self.wf(),
        ensures
            forall|k: int| 0 <= k < r@.len()
                ==> (#[trigger] self.spec_validate(color, r@[k])) is Ok,
            forall|c: AxialCoords, t: PieceType|
                #![trigger self.set_dest_ok(color, c), self.spec_offered(color, t)]
                self.set_dest_ok(color, c) && self.spec_offered(color, t)
                ==> exists|k: int| 0 <= k < r@.len()
                    && spec_set_move_parts(r@[k])
                        == Some((Piece { owner: color, piece_type: t }, c)),
            forall|s: AxialCoords, dd: AxialCoords|
                #![trigger self.board.owned_at(s, color), self.spec_validate_drag(color, s, dd)]
                self.board.owned_at(s, color)
                && (self.board.boundary_at(dd)
                    || (self.board.at(s).pieces@.len() > 0
                        && self.board.at(s).pieces@.last().piece_type == PieceType::Beetle
                        && s.spec_adjacent(dd) && self.board.has(dd)))
                && self.spec_validate_drag(color, s, dd) is Ok
                ==> exists|k: int| 0 <= k < r@.len()
                    && spec_drag_move_parts(#[trigger] r@[k]) == Some((s, dd)),
            exists|n: int| #[trigger] spec_phase_split(r@, n),
    {
        let mut moves = self.possible_set_moves(color);
        let mut drags = self.possible_drag_moves(color);
        let ghost sets = moves@;
        let ghost dragsv = drags@;
        moves.append(&mut drags);
        proof {
            assert forall|k: int| 0 <= k < moves@.len() implies
                (#[trigger] self.spec_validate(color, moves@[k])) is Ok by {
                if k < sets.len() {
                    assert(moves@[k] == sets[k]);
                    assert(self.spec_validate(color, sets[k]) is Ok);
                } else {
                    assert(moves@[k] == dragsv[k - sets.len()]);
                    assert(self.spec_validate(color, dragsv[k - sets.len()]) is Ok);
                }
            }
            assert forall|c: AxialCoords, t: PieceType|
                #![trigger self.set_dest_ok(color, c), self.spec_offered(color, t)]
                self.set_dest_ok(color, c) && self.spec_offered(color, t)
                implies exists|k: int| 0 <= k < moves@.len()
                    && spec_set_move_parts(moves@[k])
                        == Some((Piece { owner: color, piece_type: t }, c)) by {
                let k = choose|k: int| 0 <= k < sets.len()
                    && spec_set_move_parts(#[trigger] sets[k])
                        == Some((Piece { owner: color, piece_type: t }, c));
                assert(moves@[k] == sets[k]);
            }
            assert forall|s: AxialCoords, dd: AxialCoords|
                #![trigger self.board.owned_at(s, color), self.spec_validate_drag(color, s, dd)]
                self.board.owned_at(s, color)
                && (self.board.boundary_at(dd)
                    || (self.board.at(s).pieces@.len() > 0
                        && self.board.at(s).pieces@.last().piece_type == PieceType::Beetle
                        && s.spec_adjacent(dd) && self.board.has(dd)))
                && self.spec_validate_drag(color, s, dd) is Ok
                implies exists|k: int| 0 <= k < moves@.len()
                    && spec_drag_move_parts(moves@[k]) == Some((s, dd)) by {
                let k = choose|k: int| 0 <= k < dragsv.len()
                    && spec_drag_move_parts(#[trigger] dragsv[k]) == Some((s, dd));
                assert(moves@[sets.len() + k] == dragsv[k]);
            }
            let n = sets.len() as int;
            assert(spec_phase_split(moves@, n)) by {
                assert forall|k: int| 0 <= k < n implies
                    (#[trigger] spec_set_move_parts(moves@[k])) is Some by {
                    assert(moves@[k] == sets[k]);
                    assert(spec_set_move_parts(sets[k]) is Some) by {
                        assert(match spec_set_move_parts(sets[k]) {
                            Some(p) => p.0.owner == color && self.set_dest_ok(color, p.1)
                                && self.spec_offered(color, p.0.piece_type),
                            None => false,
                        });
                    }
                }
                assert forall|k: int| n <= k < moves@.len() implies
                    (#[trigger] spec_drag_move_parts(moves@[k])) is Some by {
                    assert(moves@[k] == dragsv[k - n]);
                    assert(spec_drag_move_parts(dragsv[k - n]) is Some);
                }
                assert forall|k1: int, k2: int| 0 <= k1 < k2 < n implies
                    spec_set_move_parts(moves@[k1]) != spec_set_move_parts(moves@[k2]) by {
                    assert(moves@[k1] == sets[k1] && moves@[k2] == sets[k2]);
                    assert(spec_set_move_parts(sets[k1]) != spec_set_move_parts(sets[k2]));
                }
            }
        }
        moves
    }

    /// Tests whether the given move is valid for the given color.
    pub fn validate_move(&self, color: PlayerColor, game_move: &Move) -> (r: Result<(), MoveViolation>)
        requires
            self.wf(),
        ensures
            r == self.spec_validate(color, *game_move),
    {
        match game_move {
            Move::SetMove { piece, destination } => {
                self.validate_set_move(color, *piece, destination.coords())
            },
            Move::DragMove { start, destination } => {
                self.validate_drag_move(color, start.coords(), destination.coords())
            },
        }
    }
}

} // verus!
