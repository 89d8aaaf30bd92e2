use socha::game::board::Board;
use socha::game::constants::{BOARD_RADIUS, FIELD_COUNT};
use socha::game::game_state::GameState;
use socha::game::moves::{Move, MoveViolation};
use socha::game::piece::Piece;
use socha::game::piece_type::PieceType;
use socha::game::pieces::Pieces;
use socha::game::player::Player;
use socha::game::player_color::PlayerColor;
use socha::util::{AxialCoords, CubeCoords};

#[test]
pub fn test_empty_ascii_hex_grid() {
    let ascii_hex = r#"    /\  /\    
   /  \/  \   
   |   |   |  
  /\  /\  /\  
 /  \/  \/  \ 
 |   |   |   |
 \  /\  /\  / 
  \/  \/  \/  
   |   |   |  
   \  /\  /   
    \/  \/    "#;
    let board = Board::from_ascii_hex_grid(ascii_hex).expect("Board could not be converted");
    assert_eq!(board.fields().len(), 7);
    assert!(!board.has_pieces());
}

#[test]
pub fn test_filled_ascii_hex_grid() {
    let ascii_hex = r#"    /\  /\  /\
   /  \/  \ / \
   |   |   |   | 
  /\  /\  /\  /\
 /  \/  \/  \/  \
 |   |BR |AB |AB |
 \  /\  /\  /\  /
  \/  \/  \/  \/
   |   |GR |   |
  /\  /\  /\  /\
 /  \/  \/  \/  \
 |   |   |   |   |
 \  /\  /\  /\  /
  \/  \/  \/  \/
   |   |   |   | 
   \  /\  /\  /
    \/  \/  \/"#;
    let board = Board::from_ascii_hex_grid(ascii_hex).expect("Board could not be converted");
    assert_eq!(board.fields().len(), 17);
    assert!(board.has_pieces());
    let red = board.fields_owned_by(PlayerColor::Red);
    assert_eq!(red.len(), 2);
    assert!(red.iter().any(|f| f.coords() == AxialCoords::new(0, 0)
        && f.piece() == Some(Piece::new(PlayerColor::Red, PieceType::Grasshopper))));
    assert!(red.iter().any(|f| f.coords() == AxialCoords::new(0, 1)
        && f.piece() == Some(Piece::new(PlayerColor::Red, PieceType::Bee))));
    let blue = board.fields_owned_by(PlayerColor::Blue);
    assert_eq!(blue.len(), 2);
    assert!(blue.iter().any(|f| f.coords() == AxialCoords::new(1, 0)
        && f.piece() == Some(Piece::new(PlayerColor::Blue, PieceType::Ant))));
    assert!(blue.iter().any(|f| f.coords() == AxialCoords::new(2, -1)
        && f.piece() == Some(Piece::new(PlayerColor::Blue, PieceType::Ant))));
    assert!(board.is_swarm_connected());
}

#[test]
fn test_filling_radius() {
    let board = Board::filling_radius(BOARD_RADIUS, Vec::new());
    assert_eq!(board.fields().len(), FIELD_COUNT);
    for field in board.fields() {
        let cube_coords: CubeCoords = field.cube_coords();
        assert_eq!(cube_coords.x() + cube_coords.y() + cube_coords.z(), 0);
    }
}

fn player(color: PlayerColor, name: &str) -> Player {
    Player { color, display_name: name.to_owned() }
}

fn state_with_board(turn: u32, board: Board) -> GameState {
    GameState::new(
        turn,
        PlayerColor::Red,
        PlayerColor::Red,
        board,
        player(PlayerColor::Red, "red"),
        player(PlayerColor::Blue, "blue"),
        Pieces::initial(PlayerColor::Red),
        Pieces::initial(PlayerColor::Blue),
    )
}

fn put(board: &mut Board, x: i32, y: i32, color: PlayerColor, pt: PieceType) {
    board.field_mut(AxialCoords::new(x, y)).unwrap().push(Piece::new(color, pt));
}

#[test]
fn grasshopper_jump_rules() {
    // three occupied cells collinear, an empty landing cell two steps on
    let mut board = Board::from_radius(4);
    put(&mut board, 0, 0, PlayerColor::Red, PieceType::Grasshopper);
    put(&mut board, 1, 0, PlayerColor::Blue, PieceType::Bee);
    put(&mut board, 2, 0, PlayerColor::Blue, PieceType::Ant);
    put(&mut board, 0, 1, PlayerColor::Red, PieceType::Bee);
    let state = state_with_board(8, board);
    let start = state.board.field(AxialCoords::new(0, 0)).unwrap().duplicate();
    let jump_to = |state: &GameState, x, y| {
        let dest = state.board.field(AxialCoords::new(x, y)).unwrap().duplicate();
        state.validate_move(PlayerColor::Red, &Move::DragMove {
            start: start.duplicate(),
            destination: dest,
        })
    };
    assert_eq!(jump_to(&state, 3, 0), Ok(()));
    // with a gap in between the same jump is rejected
    let mut gap_board = Board::from_radius(4);
    put(&mut gap_board, 0, 0, PlayerColor::Red, PieceType::Grasshopper);
    put(&mut gap_board, 0, 1, PlayerColor::Red, PieceType::Bee);
    put(&mut gap_board, 1, 1, PlayerColor::Blue, PieceType::Ant);
    put(&mut gap_board, 2, 0, PlayerColor::Blue, PieceType::Bee);
    let gap_state = state_with_board(8, gap_board);
    assert_eq!(jump_to(&gap_state, 3, 0), Err(MoveViolation::JumpOverEmpty));
    // a one-step hop is too short
    assert_eq!(jump_to(&state, 1, 0), Err(MoveViolation::OnlyBeetlesClimb));
    assert_eq!(jump_to(&state, 1, 1), Err(MoveViolation::NotInLine));
}

#[test]
fn spider_moves_exactly_three_steps() {
    let mut board = Board::from_radius(4);
    put(&mut board, 0, 0, PlayerColor::Red, PieceType::Spider);
    put(&mut board, 1, 0, PlayerColor::Blue, PieceType::Bee);
    put(&mut board, 0, 1, PlayerColor::Red, PieceType::Bee);
    // three accessible steps around the cluster reach (2, 0), via
    // (1, -1) and (2, -1)
    assert!(board.bfs_reachable_in_3_steps(AxialCoords::new(0, 0), AxialCoords::new(2, 0)));
    // cells one or two steps along that only path are not three-step goals
    assert!(!board.bfs_reachable_in_3_steps(AxialCoords::new(0, 0), AxialCoords::new(1, -1)));
    assert!(!board.bfs_reachable_in_3_steps(AxialCoords::new(0, 0), AxialCoords::new(2, -1)));
    assert!(!board.bfs_reachable_in_3_steps(AxialCoords::new(0, 0), AxialCoords::new(0, 0)));
}

#[test]
fn validator_reports_reasons() {
    let board = Board::from_radius(3);
    let state = state_with_board(0, board);
    // the very first placement may go anywhere empty
    let dest = state.board.field(AxialCoords::new(0, 0)).unwrap().duplicate();
    let m = Move::SetMove {
        piece: Piece::new(PlayerColor::Red, PieceType::Ant),
        destination: dest,
    };
    assert_eq!(state.validate_move(PlayerColor::Red, &m), Ok(()));
    // out of bounds is rejected
    let off = socha::game::field::Field::from_coords(AxialCoords::new(40, 40));
    let m = Move::SetMove {
        piece: Piece::new(PlayerColor::Red, PieceType::Ant),
        destination: off,
    };
    assert_eq!(
        state.validate_move(PlayerColor::Red, &m),
        Err(MoveViolation::DestinationOutOfBounds)
    );
    assert_eq!(
        MoveViolation::DestinationOutOfBounds.message(),
        "Move destination is out of bounds"
    );
    assert_eq!(
        MoveViolation::JumpOverEmpty.message(),
        "Grasshopper cannot move over empty fields"
    );
}

#[test]
fn generator_moves_all_validate() {
    let mut board = Board::from_radius(4);
    put(&mut board, 0, 0, PlayerColor::Red, PieceType::Bee);
    put(&mut board, 0, 1, PlayerColor::Red, PieceType::Grasshopper);
    put(&mut board, 1, 0, PlayerColor::Blue, PieceType::Bee);
    put(&mut board, 2, -1, PlayerColor::Blue, PieceType::Ant);
    let state = state_with_board(6, board);
    for color in [PlayerColor::Red, PlayerColor::Blue] {
        let moves = state.possible_moves(color);
        assert!(!moves.is_empty());
        for m in &moves {
            assert_eq!(state.validate_move(color, m), Ok(()), "generated move fails: {:?}", m);
        }
    }
}

#[test]
fn ascii_grid_round_trip() {
    let mut board = Board::from_radius(3);
    put(&mut board, 0, 0, PlayerColor::Red, PieceType::Grasshopper);
    put(&mut board, 0, 1, PlayerColor::Red, PieceType::Bee);
    put(&mut board, 1, 0, PlayerColor::Blue, PieceType::Ant);
    put(&mut board, 2, -1, PlayerColor::Blue, PieceType::Ant);
    let rendered = board.render_ascii_hex_grid();
    let parsed = Board::from_ascii_hex_grid(rendered.as_str()).expect("parse failed");
    let mut original: Vec<(AxialCoords, Piece)> = board
        .occupied_fields()
        .iter()
        .map(|f| (f.coords(), f.piece().unwrap()))
        .collect();
    let mut recovered: Vec<(AxialCoords, Piece)> = parsed
        .occupied_fields()
        .iter()
        .map(|f| (f.coords(), f.piece().unwrap()))
        .collect();
    let key = |(c, p): &(AxialCoords, Piece)| (c.x, c.y, p.owner.to_char(), p.piece_type.to_char());
    original.sort_by_key(key);
    recovered.sort_by_key(key);
    assert_eq!(original, recovered);
}

#[test]
fn bee_must_be_placed_by_fourth_round() {
    // rounds count from zero: at round 3 (turns 6 and 7) an unplaced Bee
    // restricts placements to the Bee
    let mut board = Board::from_radius(4);
    put(&mut board, 0, 0, PlayerColor::Red, PieceType::Ant);
    put(&mut board, 1, 0, PlayerColor::Blue, PieceType::Bee);
    let state = state_with_board(6, board);
    let dest = state.board.field(AxialCoords::new(-1, 0)).unwrap().duplicate();
    let ant_move = Move::SetMove {
        piece: Piece::new(PlayerColor::Red, PieceType::Ant),
        destination: dest.duplicate(),
    };
    assert_eq!(
        state.validate_move(PlayerColor::Red, &ant_move),
        Err(MoveViolation::BeeRequired)
    );
    let bee_move = Move::SetMove {
        piece: Piece::new(PlayerColor::Red, PieceType::Bee),
        destination: dest,
    };
    assert_eq!(state.validate_move(PlayerColor::Red, &bee_move), Ok(()));
    // one turn earlier the Ant is still allowed
    let mut board = Board::from_radius(4);
    put(&mut board, 0, 0, PlayerColor::Red, PieceType::Ant);
    put(&mut board, 1, 0, PlayerColor::Blue, PieceType::Bee);
    let earlier = state_with_board(5, board);
    let dest = earlier.board.field(AxialCoords::new(-1, 0)).unwrap().duplicate();
    let ant_move = Move::SetMove {
        piece: Piece::new(PlayerColor::Red, PieceType::Ant),
        destination: dest,
    };
    assert_eq!(earlier.validate_move(PlayerColor::Red, &ant_move), Ok(()));
}
