use socha::game::board::Board;
use socha::game::field::Field;
use socha::game::piece::Piece;
use socha::game::piece_type::PieceType;
use socha::game::player_color::PlayerColor;
use socha::util::AxialCoords;

#[test]
fn test_filled_grid() {
    let mut board = Board::from_radius(3);
    assert_eq!(board.fields().len(), 19);

    board.field_mut(AxialCoords::new(0, 0)).unwrap().push(Piece::new(PlayerColor::Red, PieceType::Grasshopper));
    board.field_mut(AxialCoords::new(0, 1)).unwrap().push(Piece::new(PlayerColor::Red, PieceType::Bee));
    board.field_mut(AxialCoords::new(1, 0)).unwrap().push(Piece::new(PlayerColor::Blue, PieceType::Ant));
    board.field_mut(AxialCoords::new(2, -1)).unwrap().push(Piece::new(PlayerColor::Blue, PieceType::Ant));
    assert!(board.has_pieces());

    let expected_red = vec![
        Field::new(AxialCoords::new(0, 0), vec![Piece {
            piece_type: PieceType::Grasshopper,
            owner: PlayerColor::Red,
        }], false),
        Field::new(AxialCoords::new(0, 1), vec![Piece {
            piece_type: PieceType::Bee,
            owner: PlayerColor::Red,
        }], false),
    ];
    let expected_blue = vec![
        Field::new(AxialCoords::new(1, 0), vec![Piece {
            piece_type: PieceType::Ant,
            owner: PlayerColor::Blue,
        }], false),
        Field::new(AxialCoords::new(2, -1), vec![Piece {
            piece_type: PieceType::Ant,
            owner: PlayerColor::Blue,
        }], false),
    ];
    assert_unordered_fields(board.fields_owned_by(PlayerColor::Red), &expected_red);
    assert_unordered_fields(board.fields_owned_by(PlayerColor::Blue), &expected_blue);
}

fn assert_unordered_fields(actual: Vec<&Field>, expected: &[Field]) {
    assert_eq!(actual.len(), expected.len());
    for e in expected {
        assert!(
            actual.iter().any(|f| f.coords() == e.coords()
                && f.pieces() == e.pieces()
                && f.is_obstructed() == e.is_obstructed()),
            "missing field at {:?}", e.coords()
        );
    }
}

#[test]
fn swarm_connectivity_cases() {
    // an empty board's swarm is connected
    let board = Board::from_radius(3);
    assert!(board.is_swarm_connected());

    // one connected component
    let mut board = Board::from_radius(3);
    board.field_mut(AxialCoords::new(0, 0)).unwrap().push(Piece::new(PlayerColor::Red, PieceType::Bee));
    board.field_mut(AxialCoords::new(0, 1)).unwrap().push(Piece::new(PlayerColor::Blue, PieceType::Bee));
    assert!(board.is_swarm_connected());

    // two clusters that share no adjacency
    board.field_mut(AxialCoords::new(2, -2)).unwrap().push(Piece::new(PlayerColor::Red, PieceType::Ant));
    assert!(!board.is_swarm_connected());
}

#[test]
fn boundary_path_symmetry_samples() {
    let mut board = Board::from_radius(4);
    board.field_mut(AxialCoords::new(0, 0)).unwrap().push(Piece::new(PlayerColor::Red, PieceType::Bee));
    board.field_mut(AxialCoords::new(1, 0)).unwrap().push(Piece::new(PlayerColor::Blue, PieceType::Bee));
    let pairs = [
        (AxialCoords::new(0, 1), AxialCoords::new(1, -1)),
        (AxialCoords::new(-1, 0), AxialCoords::new(2, 0)),
        (AxialCoords::new(0, 1), AxialCoords::new(3, 0)),
    ];
    for (a, b) in pairs {
        assert_eq!(
            board.connected_by_boundary_path(a, b),
            board.connected_by_boundary_path(b, a),
            "asymmetry between {:?} and {:?}", a, b
        );
    }
}

#[test]
fn set_move_destinations_are_distinct() {
    // two own pieces share empty neighbors: a duplicate-preserving
    // enumeration would list those neighbors twice
    let mut board = Board::from_radius(3);
    board.field_mut(AxialCoords::new(0, 0)).unwrap().push(Piece::new(PlayerColor::Red, PieceType::Bee));
    board.field_mut(AxialCoords::new(1, 0)).unwrap().push(Piece::new(PlayerColor::Red, PieceType::Ant));
    let dests = board.possible_set_move_destinations(PlayerColor::Red);
    for (i, a) in dests.iter().enumerate() {
        for b in dests.iter().skip(i + 1) {
            assert_ne!(a, b);
        }
    }
    // the shared neighbors appear exactly once
    assert!(dests.contains(&AxialCoords::new(0, 1)));
    assert!(dests.contains(&AxialCoords::new(1, -1)));
}
