use socha::xml_node::XmlNode;
use socha::game::board::Board;
use socha::game::piece::Piece;
use socha::game::piece_type::PieceType;
use socha::game::player::Player;
use socha::game::player_color::PlayerColor;
use socha::game::field::Field as HiveField;
use socha::game::moves::Move;
use socha::protocol::{Joined, PlayerScore, ScoreCause, ScoreDefinition};
use socha::strings::{parse_bool, parse_i32, parse_u32};
use socha::util::AxialCoords;

#[test]
fn test_xml_display() {
    let node = XmlNode::new("a")
        .attribute("b", "c")
        .child(XmlNode::new("d").build())
        .build();
    assert_eq!(node.pretty_string(), "<a b=\"c\">\n  <d />\n</a>".to_owned());
}

#[test]
fn xml_node_lookups() {
    let node = XmlNode::new("room")
        .attribute("roomId", "42")
        .child(XmlNode::new("data").attribute("class", "memento").build())
        .child(XmlNode::new("data").attribute("class", "result").build())
        .build();
    assert_eq!(node.attribute("roomId").unwrap(), "42");
    assert!(node.attribute("missing").is_err());
    assert_eq!(node.child_by_name("data").unwrap().attribute("class").unwrap(), "memento");
    assert!(node.child_by_name("other").is_err());
    assert_eq!(node.childs_by_name("data").len(), 2);
}

#[test]
fn decode_piece_and_player() {

    let node = XmlNode::new("piece")
        .attribute("owner", "RED")
        .attribute("type", "GRASSHOPPER")
        .build();
    assert_eq!(
        Piece::from_node(&node).unwrap(),
        Piece::new(PlayerColor::Red, PieceType::Grasshopper)
    );

    let node = XmlNode::new("red")
        .attribute("color", "RED")
        .attribute("displayName", "Alice")
        .build();
    let player = Player::from_node(&node).unwrap();
    assert_eq!(player.color, PlayerColor::Red);
    assert_eq!(player.display_name, "Alice");

    let bad = XmlNode::new("piece").attribute("owner", "RED").build();
    assert!(Piece::from_node(&bad).is_err());
}

#[test]
fn decode_board_pads_to_radius() {

    let node = XmlNode::new("board")
        .child(
            XmlNode::new("fields")
                .child(
                    XmlNode::new("field")
                        .attribute("x", "0")
                        .attribute("y", "0")
                        .attribute("isObstructed", "false")
                        .child(
                            XmlNode::new("piece")
                                .attribute("owner", "BLUE")
                                .attribute("type", "ANT")
                                .build(),
                        )
                        .build(),
                )
                .build(),
        )
        .build();
    let board = Board::from_node(&node).unwrap();
    assert_eq!(board.fields().len(), 91);
    let owned = board.fields_owned_by(PlayerColor::Blue);
    assert_eq!(owned.len(), 1);
    assert_eq!(owned[0].coords(), AxialCoords::new(0, 0));
}

#[test]
fn numeral_parsing() {
    assert_eq!(parse_i32("0").unwrap(), 0);
    assert_eq!(parse_i32("-42").unwrap(), -42);
    assert_eq!(parse_i32("2147483647").unwrap(), i32::MAX);
    assert_eq!(parse_i32("-2147483648").unwrap(), i32::MIN);
    assert!(parse_i32("2147483648").is_err());
    assert!(parse_i32("").is_err());
    assert!(parse_i32("-").is_err());
    assert!(parse_i32("1x").is_err());
    assert_eq!(parse_u32("17").unwrap(), 17);
    assert!(parse_u32("-1").is_err());
    assert_eq!(parse_bool("true").unwrap(), true);
    assert_eq!(parse_bool("false").unwrap(), false);
    assert!(parse_bool("True").is_err());
}

#[test]
fn decode_protocol_messages() {

    let node = XmlNode::new("joined").attribute("roomId", "r1").build();
    assert_eq!(Joined::from_node(&node).unwrap().room_id, "r1");

    let node = XmlNode::new("definition")
        .child(
            XmlNode::new("fragment")
                .attribute("name", "Winner")
                .attribute("aggregation", "SUM")
                .child(XmlNode::new("relevantForRanking").data("true").build())
                .build(),
        )
        .build();
    let definition = ScoreDefinition::from_node(&node).unwrap();
    assert_eq!(definition.fragments.len(), 1);
    assert_eq!(definition.fragments[0].name, "Winner");
    assert!(definition.fragments[0].relevant_for_ranking);

    let node = XmlNode::new("score")
        .attribute("cause", "LEFT")
        .attribute("reason", "Player left the game")
        .build();
    let score = PlayerScore::from_node(&node).unwrap();
    assert_eq!(score.cause, ScoreCause::Left);
    assert_eq!(score.reason, "Player left the game");
}

#[test]
fn encode_moves_to_nodes() {
    let piece = Piece::new(PlayerColor::Red, PieceType::Bee);
    let node = piece.to_node();
    assert_eq!(node.name(), "piece");
    assert_eq!(node.attribute("owner").unwrap(), "RED");
    assert_eq!(node.attribute("type").unwrap(), "BEE");

    let destination = HiveField::new(AxialCoords::new(2, -1), vec![], false);
    let set_move = Move::SetMove { piece, destination };
    let node = set_move.to_node();
    assert_eq!(node.name(), "data");
    assert_eq!(node.attribute("class").unwrap(), "setmove");
    let dest_node = node.child_by_name("destination").unwrap();
    assert_eq!(parse_i32(dest_node.attribute("x").unwrap()).unwrap(), 2);
    assert_eq!(parse_i32(dest_node.attribute("y").unwrap()).unwrap(), -1);
    assert_eq!(parse_i32(dest_node.attribute("z").unwrap()).unwrap(), -1);
    assert_eq!(dest_node.attribute("isObstructed").unwrap(), "false");

    let start = HiveField::new(
        AxialCoords::new(0, 0),
        vec![Piece::new(PlayerColor::Blue, PieceType::Ant)],
        false,
    );
    let destination = HiveField::new(AxialCoords::new(0, 1), vec![], false);
    let drag_move = Move::DragMove { start, destination };
    let node = drag_move.to_node();
    assert_eq!(node.attribute("class").unwrap(), "dragmove");
    let start_node = node.child_by_name("start").unwrap();
    assert_eq!(start_node.childs_by_name("piece").len(), 1);
    assert_eq!(socha::strings::format_i32(-42), "-42");
    assert_eq!(socha::strings::format_i32(0), "0");
    assert_eq!(socha::strings::format_i32(i32::MIN), "-2147483648");
}

#[test]
fn snapshot_decode_requires_every_part() {
    let player = |color: &str, name: &str| {
        XmlNode::new("red")
            .attribute("color", color)
            .attribute("displayName", name)
            .build()
    };
    let mut red = player("RED", "Alice");
    red.name = "red".to_owned();
    let mut blue = player("BLUE", "Bob");
    blue.name = "blue".to_owned();
    let field = XmlNode::new("field")
        .attribute("x", "0")
        .attribute("y", "0")
        .attribute("isObstructed", "false")
        .child(
            XmlNode::new("piece")
                .attribute("owner", "RED")
                .attribute("type", "BEE")
                .build(),
        )
        .build();
    let board = XmlNode::new("board")
        .child(XmlNode::new("fields").child(field).build())
        .build();
    let blue_bee = XmlNode::new("piece")
        .attribute("owner", "BLUE")
        .attribute("type", "BEE")
        .build();
    let full = XmlNode::new("state")
        .attribute("turn", "4")
        .attribute("startPlayerColor", "RED")
        .attribute("currentPlayerColor", "BLUE")
        .child(red)
        .child(blue)
        .child(board)
        .child(XmlNode::new("undeployedRedPieces").build())
        .child(XmlNode::new("undeployedBluePieces").child(blue_bee).build())
        .build();
    let state = socha::game::game_state::GameState::from_node(&full).unwrap();
    assert_eq!(state.turn, 4);
    assert_eq!(state.start_player_color, PlayerColor::Red);
    assert_eq!(state.current_player_color, PlayerColor::Blue);
    assert_eq!(state.red_player.display_name, "Alice");
    assert_eq!(state.undeployed_blue_pieces.len(), 1);
    assert!(state.board.has_placed_bee(PlayerColor::Red));

    // a snapshot whose blue Bee is neither placed nor in reserve is
    // rejected as malformed
    let mut missing = full;
    missing.childs[4].childs.clear();
    assert!(socha::game::game_state::GameState::from_node(&missing).is_err());

    // an unparsable turn is rejected
    let bad = XmlNode::new("state").attribute("turn", "x").build();
    assert!(socha::game::game_state::GameState::from_node(&bad).is_err());
}

#[test]
fn attribute_first_binding_wins() {
    let node = XmlNode::new("a")
        .attribute("k", "first")
        .attribute("k", "second")
        .build();
    assert_eq!(node.attribute("k").unwrap(), "first");
}
