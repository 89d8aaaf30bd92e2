use socha::blokus::board::Board;
use socha::blokus::color::Color;
use socha::blokus::corner::Corner;
use socha::blokus::field::Field;
use socha::blokus::fields::Fields;
use socha::blokus::piece_shapes::all_piece_shapes;
use socha::blokus::rotation::Rotation;
use socha::blokus::vec2::Vec2;

#[test]
fn board_get_and_set() {
    let mut fields = Fields::new();
    fields.push(Field::new(Vec2::new(0, 0), Color::Blue));
    fields.push(Field::new(Vec2::new(0, 1), Color::Red));
    let board = Board::from_fields(fields);
    assert_eq!(board.get(Vec2::new(0, 0)), Color::Blue);
    assert_eq!(board.get(Vec2::new(0, 1)), Color::Red);
    assert_eq!(board.get(Vec2::new(5, 5)), Color::Neutral);
    assert_eq!(board.count_obstructed(), 2);
    assert!(board.is_obstructed(Vec2::new(0, 0)));
    assert!(!board.is_obstructed(Vec2::new(5, 5)));
    assert!(board.borders_on_color(Vec2::new(1, 0), Color::Blue));
    assert!(board.corners_on_color(Vec2::new(1, 2), Color::Red));
}

#[test]
fn board_bounds_and_corners() {
    assert!(Board::is_in_bounds(Vec2::new(0, 0)));
    assert!(Board::is_in_bounds(Vec2::new(19, 19)));
    assert!(!Board::is_in_bounds(Vec2::new(20, 0)));
    assert!(!Board::is_in_bounds(Vec2::new(-1, 3)));
    assert!(Board::is_on_corner(Vec2::new(0, 19)));
    assert!(!Board::is_on_corner(Vec2::new(1, 19)));
    assert_eq!(Board::corner_position(Corner::BottomRight), Vec2::new(19, 19));
    assert_eq!(Board::align(Vec2::new(2, 3), Corner::BottomRight), Vec2::new(17, 16));
    assert_eq!(Board::corner_positions().len(), 4);
}

#[test]
fn shape_catalog_and_rotation() {
    let shapes = all_piece_shapes();
    assert_eq!(shapes.len(), 21);
    let mono = &shapes[0];
    assert_eq!(mono.name(), "MONO");
    assert_eq!(mono.coordinates().len(), 1);
    let trio_l = &shapes[2];
    assert_eq!(trio_l.coordinates().len(), 3);
    let rotated = trio_l.rotate(Rotation::Right);
    assert_eq!(rotated.name(), "TRIO_L");
    assert_eq!(rotated.coordinates().len(), 3);
    let total: usize = shapes.iter().map(|s| s.coordinates().len()).sum();
    // 1 + 2 + 2*3 + 5*4 + 12*5
    assert_eq!(total, 89);
}

#[test]
fn vec2_algebra() {
    let v = Vec2::new(2, -3);
    assert_eq!(v.turn_right(), Vec2::new(3, 2));
    assert_eq!(v.turn_left(), Vec2::new(-3, -2));
    assert_eq!(v.flip(), Vec2::new(-2, -3));
    assert_eq!(v.plus(Vec2::new(1, 1)), Vec2::new(3, -2));
    assert_eq!(v.min(Vec2::new(0, 0)), Vec2::new(0, -3));
    assert_eq!(v.max(Vec2::new(0, 0)), Vec2::new(2, 0));
}

#[test]
fn color_and_team_names() {
    assert_eq!(Color::Red.name(), "RED");
    assert_eq!(Color::from_name("GREEN"), Some(Color::Green));
    assert_eq!(Color::from_name("PURPLE"), None);
    assert_eq!(Color::Red.team(), socha::blokus::team::Team::One);
    assert_eq!(Color::Green.team(), socha::blokus::team::Team::Two);
    assert_eq!(socha::blokus::team::Team::One.opponent(), socha::blokus::team::Team::Two);
    assert_eq!(Rotation::from_name("MIRROR"), Some(Rotation::Mirror));
    assert_eq!(Rotation::Mirror.code(), 2);
}
