use socha::game::board::Board;
use socha::game::piece::Piece;
use socha::game::piece_type::PieceType;
use socha::game::player_color::PlayerColor;
use socha::game::pieces::{initial_piece_types, Pieces};
use socha::protocol::{ScoreAggregation, ScoreCause};
use socha::game::field::Field;
use socha::util::AxialCoords;

#[test]
fn cell_count_follows_ring_recurrence() {
    // f(1) = 1 and f(r) = f(r-1) + 6 (r-1)
    let mut expected: usize = 1;
    for r in 1..=6usize {
        if r > 1 {
            expected += 6 * (r - 1);
        }
        let board = Board::from_radius(r);
        assert_eq!(board.fields().len(), expected, "radius {}", r);
    }
    assert_eq!(Board::from_radius(6).fields().len(), 91);
}

#[test]
fn initial_reserve_composition() {
    let types = initial_piece_types();
    assert_eq!(types.len(), 11);
    let count = |t: PieceType| types.iter().filter(|&&x| x == t).count();
    assert_eq!(count(PieceType::Bee), 1);
    assert_eq!(count(PieceType::Spider), 3);
    assert_eq!(count(PieceType::Grasshopper), 2);
    assert_eq!(count(PieceType::Beetle), 2);
    assert_eq!(count(PieceType::Ant), 3);
    let reserve = Pieces::initial(PlayerColor::Red);
    assert_eq!(reserve.len(), 11);
    assert!(reserve.contains(&Piece::new(PlayerColor::Red, PieceType::Bee)));
    assert!(!reserve.contains(&Piece::new(PlayerColor::Blue, PieceType::Bee)));
}

#[test]
fn neighbors_and_adjacency() {
    let origin = AxialCoords::new(0, 0);
    let nbs = origin.coord_neighbors();
    assert_eq!(nbs.len(), 6);
    for n in &nbs {
        assert!(origin.is_adjacent_to(*n));
        assert!(n.is_adjacent_to(origin));
    }
    assert!(!origin.is_adjacent_to(AxialCoords::new(1, 1)));
    assert!(!origin.is_adjacent_to(origin));
}

#[test]
fn score_enum_round_trips() {
    assert_eq!(ScoreAggregation::from_name("AVERAGE"), Ok(ScoreAggregation::Average));
    assert!(ScoreAggregation::from_name("MEDIAN").is_err());
    assert_eq!(ScoreCause::from_name("SOFT_TIMEOUT"), Ok(ScoreCause::SoftTimeout));
    assert_eq!(ScoreCause::Regular.name(), "REGULAR");
    assert!(ScoreCause::from_name("?").is_err());
}

#[test]
fn field_token_parsing() {
    let f = Field::from_short(AxialCoords::new(0, 0), "BR").unwrap();
    assert_eq!(f.piece(), Some(Piece::new(PlayerColor::Red, PieceType::Bee)));
    let g = Field::from_short(AxialCoords::new(0, 0), "AB").unwrap();
    assert_eq!(g.piece(), Some(Piece::new(PlayerColor::Blue, PieceType::Ant)));
    let empty = Field::from_short(AxialCoords::new(0, 0), "").unwrap();
    assert!(empty.is_empty());
    assert!(Field::from_short(AxialCoords::new(0, 0), "B").is_err());
    assert!(Field::from_short(AxialCoords::new(0, 0), "b1").is_err());
    assert!(Field::from_short(AxialCoords::new(0, 0), "XY").is_err());
    assert!(Field::from_short(AxialCoords::new(0, 0), "RB").is_err());
}
