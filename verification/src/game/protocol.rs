//! Decoding the game's snapshot types from XML node trees, as the wire
//! protocol delivers them.

use vstd::prelude::*;
use vstd::string::StringExecFns;
use crate::error::{SCError, SCResult};
use crate::game::board::{Board, in_hex};
use crate::game::constants::BOARD_RADIUS;
use crate::game::field::Field;
use crate::game::fields::coords_ok;
use crate::game::game_state::GameState;
use crate::game::piece::Piece;
use crate::game::piece_type::PieceType;
use crate::game::pieces::Pieces;
use crate::game::player::Player;
use crate::game::player_color::PlayerColor;
use crate::game::moves::Move;
use crate::strings::{format_i32, parse_i32, parse_u32};
use crate::util::AxialCoords;
use crate::xml_node::{FromXmlNode, XmlNode};

verus! {

/// The piece a `piece` element denotes, if its `owner` and `type`
/// attributes are present and name a color and a piece type.
pub open spec fn spec_piece_of_node(n: XmlNode) -> Option<Piece> {
    match (n.spec_attr("owner"@), n.spec_attr("type"@)) {
        (Some(o), Some(t)) => match (
            PlayerColor::spec_from_name(o),
            PieceType::spec_from_name(t),
        ) {
            (Some(c), Some(pt)) => Some(Piece { owner: c, piece_type: pt }),
            _ => None,
        },
        _ => None,
    }
}

/// Decodes a player color attribute.
fn color_from_node(node: &XmlNode, key: &str) -> (r: SCResult<PlayerColor>)
    ensures
        r is Ok ==> node.spec_has_attribute(key@),
        r is Ok <==> (match node.spec_attr(key@) {
            Some(v) => PlayerColor::spec_from_name(v) is Some,
            None => false,
        }),
        r matches Ok(c) ==> (match node.spec_attr(key@) {
            Some(v) => PlayerColor::spec_from_name(v) == Some(c),
            None => false,
        }),
{
    match node.attribute(key) {
        Ok(raw) => match PlayerColor::from_name(raw) {
            Some(c) => Ok(c),
            None => Err(SCError::custom("unknown player color")),
        },
        Err(e) => Err(e),
    }
}

impl Piece {
    /// Decodes a piece from its `owner` and `type` attributes: exactly
    /// the piece the element denotes.
    pub fn from_node(node: &XmlNode) -> (r: SCResult<Piece>)
        ensures
            r is Ok <==> spec_piece_of_node(*node) is Some,
            r matches Ok(p) ==> spec_piece_of_node(*node) == Some(p),
    {
        let owner = match color_from_node(node, "owner") {
            Ok(c) => c,
            Err(e) => {
                return Err(e);
            },
        };
        let raw_type = match node.attribute("type") {
            Ok(s) => s,
            Err(e) => {
                return Err(e);
            },
        };
        match PieceType::from_name(raw_type) {
            Some(t) => Ok(Piece::new(owner, t)),
            None => Err(SCError::custom("unknown piece type")),
        }
    }
}

impl Player {
    /// Decodes a player from its `color` and `displayName` attributes:
    /// exactly the named color and name.
    pub fn from_node(node: &XmlNode) -> (r: SCResult<Player>)
        ensures
            r is Ok <==> (match node.spec_attr("color"@) {
                Some(v) => PlayerColor::spec_from_name(v) is Some,
                None => false,
            }) && node.spec_attr("displayName"@) is Some,
            r matches Ok(p) ==> (match (node.spec_attr("color"@),
                node.spec_attr("displayName"@)) {
                (Some(v), Some(d)) => PlayerColor::spec_from_name(v) == Some(p.color)
                    && p.display_name@ == d,
                _ => false,
            }),
    {
        let color = match color_from_node(node, "color") {
            Ok(c) => c,
            Err(e) => {
                return Err(e);
            },
        };
        let name = match node.attribute("displayName") {
            Ok(s) => s,
            Err(e) => {
                return Err(e);
            },
        };
        Ok(Player { color, display_name: name.to_owned() })
    }
}

/// The cell a `field` element denotes: parseable coordinates within the
/// snapshot range, the obstruction flag, and a decodable piece stack.
pub open spec fn spec_cell_of_node(n: XmlNode) -> Option<(int, int, Seq<Piece>, bool)> {
    match (n.spec_attr("x"@), n.spec_attr("y"@), n.spec_attr("isObstructed"@)) {
        (Some(xs), Some(ys), Some(os)) => {
            if crate::strings::spec_is_numeral(xs)
                && -1000 <= crate::strings::spec_numeral_value(xs) <= 1000
                && crate::strings::spec_is_numeral(ys)
                && -1000 <= crate::strings::spec_numeral_value(ys) <= 1000
                && (os == "true"@ || os == "false"@)
            {
                match spec_decode_pieces_from(n.spec_childs_named("piece"@), 0) {
                    Some(stack) => Some((
                        crate::strings::spec_numeral_value(xs),
                        crate::strings::spec_numeral_value(ys),
                        stack,
                        os == "true"@,
                    )),
                    None => None,
                }
            } else {
                None
            }
        },
        _ => None,
    }
}

/// Decodes one board cell: coordinates, a piece stack and the
/// obstruction flag — exactly the cell the element denotes.
fn field_from_node(node: &XmlNode) -> (r: SCResult<Field>)
    ensures
        r is Ok <==> spec_cell_of_node(*node) is Some,
        r matches Ok(f) ==> coords_ok(f.acoords())
            && (match spec_cell_of_node(*node) {
                Some(c) => f.x == c.0 && f.y == c.1 && f.pieces@ == c.2
                    && f.is_obstructed == c.3,
                None => false,
            }),
{
    proof {
        reveal_strlit("true");
        reveal_strlit("false");
        assert("true"@.len() == 4 && "false"@.len() == 5);
    }
    let x = match node.attribute("x") {
        Ok(s) => match parse_i32(s) {
            Ok(v) => v,
            Err(e) => {
                return Err(e);
            },
        },
        Err(e) => {
            return Err(e);
        },
    };
    let y = match node.attribute("y") {
        Ok(s) => match parse_i32(s) {
            Ok(v) => v,
            Err(e) => {
                return Err(e);
            },
        },
        Err(e) => {
            return Err(e);
        },
    };
    if x < -1000 || x > 1000 || y < -1000 || y > 1000 {
        return Err(SCError::custom("cell coordinates are out of range"));
    }
    let obstructed = match node.attribute("isObstructed") {
        Ok(s) => match crate::strings::parse_bool(s) {
            Ok(v) => v,
            Err(e) => {
                return Err(e);
            },
        },
        Err(e) => {
            return Err(e);
        },
    };
    let piece_nodes = node.childs_by_name("piece");
    let ghost ns = node.spec_childs_named("piece"@);
    proof {
        if spec_decode_pieces_from(ns, 0) is Some {
            let rest = spec_decode_pieces_from(ns, 0)->Some_0;
            assert(Seq::<Piece>::empty() + rest =~= rest);
        }
    }
    let mut stack: Vec<Piece> = Vec::new();
    let mut i: usize = 0;
    while i < piece_nodes.len()
        invariant
            ns == node.spec_childs_named("piece"@),
            spec_cell_of_node(*node) is Some ==> spec_decode_pieces_from(ns, 0) is Some,
            piece_nodes@.len() == ns.len(),
            forall|k: int| 0 <= k < piece_nodes@.len()
                ==> *(#[trigger] piece_nodes@[k]) == ns[k],
            i <= ns.len(),
            stack@.len() == i,
            (match spec_decode_pieces_from(ns, i as int) {
                Some(rest) => spec_decode_pieces_from(ns, 0) == Some(stack@ + rest),
                None => spec_decode_pieces_from(ns, 0) is None,
            }),
        decreases piece_nodes@.len() - i,
    {
        match Piece::from_node(piece_nodes[i]) {
            Ok(p) => {
                let ghost spre = stack@;
                stack.push(p);
                proof {
                    assert(spec_piece_of_node(ns[i as int]) == Some(p));
                    if spec_decode_pieces_from(ns, i + 1) is Some {
                        let rest = spec_decode_pieces_from(ns, i + 1)->Some_0;
                        assert(spec_decode_pieces_from(ns, i as int)
                            == Some(seq![p] + rest));
                        assert(spre + (seq![p] + rest) =~= stack@ + rest);
                    }
                }
            },
            Err(e) => {
                proof {
                    assert(spec_piece_of_node(ns[i as int]) is None);
                    assert(spec_decode_pieces_from(ns, i as int) is None);
                }
                return Err(e);
            },
        }
        i += 1;
    }
    proof {
        assert(spec_decode_pieces_from(ns, ns.len() as int) == Some(Seq::<Piece>::empty()));
        assert(stack@ + Seq::<Piece>::empty() =~= stack@);
    }
    Ok(Field::new(AxialCoords::new(x, y), stack, obstructed))
}

/// The cells a row of `field` elements denotes, from index `j` on:
/// nothing when any element fails to decode.
pub open spec fn spec_cells_of_row_from(ns: Seq<XmlNode>, j: int) -> Option<Seq<(int, int, Seq<Piece>, bool)>>
    decreases ns.len() - j,
    when 0 <= j
{
    if j >= ns.len() {
        Some(Seq::empty())
    } else {
        match (spec_cell_of_node(ns[j]), spec_cells_of_row_from(ns, j + 1)) {
            (Some(c), Some(rest)) => Some(seq![c] + rest),
            _ => None,
        }
    }
}

/// The cells all `fields` rows denote, from row `i` on.
pub open spec fn spec_cells_of_rows_from(rows: Seq<XmlNode>, i: int) -> Option<Seq<(int, int, Seq<Piece>, bool)>>
    decreases rows.len() - i,
    when 0 <= i
{
    if i >= rows.len() {
        Some(Seq::empty())
    } else {
        match (
            spec_cells_of_row_from(rows[i].spec_childs_named("field"@), 0),
            spec_cells_of_rows_from(rows, i + 1),
        ) {
            (Some(a), Some(b)) => Some(a + b),
            _ => None,
        }
    }
}

/// The cells a `board` element denotes.
pub open spec fn spec_board_cells_of_node(n: XmlNode) -> Option<Seq<(int, int, Seq<Piece>, bool)>> {
    spec_cells_of_rows_from(n.spec_childs_named("fields"@), 0)
}

/// The position of a decoded cell.
pub open spec fn spec_cell_coords(c: (int, int, Seq<Piece>, bool)) -> AxialCoords {
    AxialCoords { x: c.0 as i32, y: c.1 as i32 }
}

/// Whether a board is the padded form of a list of decoded cells: it
/// holds the decoded cells (first occurrence of a position winning) and
/// empty padding up to the fixed radius, and nothing else.
pub open spec fn spec_board_matches_cells(b: Board, cs: Seq<(int, int, Seq<Piece>, bool)>) -> bool {
    &&& forall|c: AxialCoords| b.has(c)
        <==> in_hex(BOARD_RADIUS - 1, c)
            || exists|k: int| 0 <= k < cs.len() && spec_cell_coords(#[trigger] cs[k]) == c
    &&& forall|k: int| #![trigger cs[k]] 0 <= k < cs.len()
        && (forall|k2: int| 0 <= k2 < k ==> spec_cell_coords(cs[k2]) != spec_cell_coords(cs[k]))
        ==> b.at(spec_cell_coords(cs[k])).pieces@ == cs[k].2
            && b.at(spec_cell_coords(cs[k])).is_obstructed == cs[k].3
    &&& forall|c: AxialCoords| b.has(c)
        && !(exists|k: int| 0 <= k < cs.len() && spec_cell_coords(#[trigger] cs[k]) == c)
        ==> b.at(c).pieces@.len() == 0 && !b.at(c).is_obstructed
}

impl Board {
    /// Decodes a board from its `fields` children, padding it with empty
    /// cells up to the fixed radius: exactly the cells the element
    /// denotes.
    pub fn from_node(node: &XmlNode) -> (r: SCResult<Board>)
        ensures
            r is Ok <==> spec_board_cells_of_node(*node) is Some,
            r matches Ok(b) ==> b.wf()
                && (match spec_board_cells_of_node(*node) {
                    Some(cs) => spec_board_matches_cells(b, cs),
                    None => false,
                }),
    {
        let mut cells: Vec<Field> = Vec::new();
        let ghost mut cells_t: Seq<(int, int, Seq<Piece>, bool)> = Seq::empty();
        let rows = node.childs_by_name("fields");
        let ghost rows_v = node.spec_childs_named("fields"@);
        let mut i: usize = 0;
        while i < rows.len()
            invariant
                rows_v == node.spec_childs_named("fields"@),
                rows@.len() == rows_v.len(),
                forall|k: int| 0 <= k < rows@.len() ==> *(#[trigger] rows@[k]) == rows_v[k],
                i <= rows_v.len(),
                cells@.len() == cells_t.len(),
                forall|k: int| #![trigger cells@[k]] 0 <= k < cells@.len()
                    ==> coords_ok(cells@[k].acoords())
                        && cells@[k].x == cells_t[k].0 && cells@[k].y == cells_t[k].1
                        && cells@[k].pieces@ == cells_t[k].2
                        && cells@[k].is_obstructed == cells_t[k].3,
                (match spec_cells_of_rows_from(rows_v, i as int) {
                    Some(rest) => spec_board_cells_of_node(*node) == Some(cells_t + rest),
                    None => spec_board_cells_of_node(*node) is None,
                }),
            decreases rows@.len() - i,
        {
            let row_fields = rows[i].childs_by_name("field");
            let ghost fs_v = rows_v[i as int].spec_childs_named("field"@);
            let ghost row_base = cells_t;
            proof {
                assert(*rows@[i as int] == rows_v[i as int]);
                if spec_cells_of_row_from(fs_v, 0) is Some {
                    let a = spec_cells_of_row_from(fs_v, 0)->Some_0;
                    assert(Seq::<(int, int, Seq<Piece>, bool)>::empty() + a =~= a);
                }
            }
            let mut j: usize = 0;
            while j < row_fields.len()
                invariant
                    rows_v == node.spec_childs_named("fields"@),
                    i < rows_v.len(),
                    fs_v == rows_v[i as int].spec_childs_named("field"@),
                    row_fields@.len() == fs_v.len(),
                    forall|k: int| 0 <= k < row_fields@.len()
                        ==> *(#[trigger] row_fields@[k]) == fs_v[k],
                    j <= fs_v.len(),
                    cells@.len() == cells_t.len(),
                    cells_t.len() >= row_base.len(),
                    forall|k: int| 0 <= k < row_base.len() ==> cells_t[k] == row_base[k],
                    forall|k: int| #![trigger cells@[k]] 0 <= k < cells@.len()
                        ==> coords_ok(cells@[k].acoords())
                            && cells@[k].x == cells_t[k].0 && cells@[k].y == cells_t[k].1
                            && cells@[k].pieces@ == cells_t[k].2
                            && cells@[k].is_obstructed == cells_t[k].3,
                    (match (spec_cells_of_row_from(fs_v, j as int),
                        spec_cells_of_rows_from(rows_v, i + 1)) {
                        (Some(a), Some(b)) => spec_board_cells_of_node(*node)
                            == Some(cells_t + a + b),
                        _ => spec_board_cells_of_node(*node) is None,
                    }),
                decreases row_fields@.len() - j,
            {
                let ghost cpre = cells@;
                let ghost tpre = cells_t;
                match field_from_node(row_fields[j]) {
                    Ok(f) => {
                        cells.push(f);
                        proof {
                            let c = spec_cell_of_node(fs_v[j as int])->Some_0;
                            cells_t = cells_t.push(c);
                            assert(forall|k: int| 0 <= k < cpre.len() ==> cells@[k] == cpre[k]);
                            assert(cells@[cpre.len() as int].x == c.0
                                && cells@[cpre.len() as int].y == c.1
                                && cells@[cpre.len() as int].pieces@ == c.2
                                && cells@[cpre.len() as int].is_obstructed == c.3);
                            if spec_cells_of_row_from(fs_v, j + 1) is Some
                                && spec_cells_of_rows_from(rows_v, i + 1) is Some {
                                let a = spec_cells_of_row_from(fs_v, j + 1)->Some_0;
                                let b = spec_cells_of_rows_from(rows_v, i + 1)->Some_0;
                                assert(spec_cells_of_row_from(fs_v, j as int)
                                    == Some(seq![c] + a));
                                assert(tpre + (seq![c] + a) + b =~= cells_t + a + b);
                            }
                        }
                    },
                    Err(e) => {
                        proof {
                            assert(spec_cell_of_node(fs_v[j as int]) is None);
                            assert(spec_cells_of_row_from(fs_v, j as int) is None);
                        }
                        return Err(e);
                    },
                }
                j += 1;
            }
            proof {
                assert(spec_cells_of_row_from(fs_v, fs_v.len() as int)
                    == Some(Seq::<(int, int, Seq<Piece>, bool)>::empty()));
                if spec_cells_of_rows_from(rows_v, i + 1) is Some {
                    let b = spec_cells_of_rows_from(rows_v, i + 1)->Some_0;
                    assert(cells_t + Seq::<(int, int, Seq<Piece>, bool)>::empty() + b
                        =~= cells_t + b);
                }
            }
            i += 1;
        }
        proof {
            assert(spec_cells_of_rows_from(rows_v, rows_v.len() as int)
                == Some(Seq::<(int, int, Seq<Piece>, bool)>::empty()));
            assert(cells_t + Seq::<(int, int, Seq<Piece>, bool)>::empty() =~= cells_t);
            assert(spec_board_cells_of_node(*node) == Some(cells_t));
        }
        let board = Board::filling_radius(BOARD_RADIUS, cells);
        proof {
            assert(spec_board_matches_cells(board, cells_t)) by {
                assert forall|c: AxialCoords| board.has(c) implies
                    in_hex(BOARD_RADIUS - 1, c)
                        || exists|k: int| 0 <= k < cells_t.len()
                            && spec_cell_coords(#[trigger] cells_t[k]) == c by {
                    if !in_hex(BOARD_RADIUS - 1, c) {
                        let k = choose|k: int| 0 <= k < cells@.len()
                            && (#[trigger] cells@[k]).acoords() == c;
                        assert(spec_cell_coords(cells_t[k]) == c);
                    }
                }
                assert forall|c: AxialCoords|
                    in_hex(BOARD_RADIUS - 1, c)
                        || exists|k: int| 0 <= k < cells_t.len()
                            && spec_cell_coords(#[trigger] cells_t[k]) == c
                    implies board.has(c) by {
                    if exists|k: int| 0 <= k < cells_t.len()
                        && spec_cell_coords(#[trigger] cells_t[k]) == c {
                        let k = choose|k: int| 0 <= k < cells_t.len()
                            && spec_cell_coords(#[trigger] cells_t[k]) == c;
                        assert(cells@[k].acoords() == c);
                    }
                }
                assert forall|k: int| #![trigger cells_t[k]] 0 <= k < cells_t.len()
                    && (forall|k2: int| 0 <= k2 < k
                        ==> spec_cell_coords(cells_t[k2]) != spec_cell_coords(cells_t[k]))
                    implies board.at(spec_cell_coords(cells_t[k])).pieces@ == cells_t[k].2
                        && board.at(spec_cell_coords(cells_t[k])).is_obstructed
                            == cells_t[k].3 by {
                    assert forall|k2: int| 0 <= k2 < k implies
                        cells@[k2].acoords() != cells@[k].acoords() by {
                        assert(spec_cell_coords(cells_t[k2]) != spec_cell_coords(cells_t[k]));
                    }
                    assert(board.at(cells@[k].acoords()).same_cell(cells@[k]));
                    assert(spec_cell_coords(cells_t[k]) == cells@[k].acoords());
                }
                assert forall|c: AxialCoords| board.has(c)
                    && !(exists|k: int| 0 <= k < cells_t.len()
                        && spec_cell_coords(#[trigger] cells_t[k]) == c)
                    implies board.at(c).pieces@.len() == 0 && !board.at(c).is_obstructed by {
                    assert(!(exists|k: int| 0 <= k < cells@.len()
                        && (#[trigger] cells@[k]).acoords() == c)) by {
                        if exists|k: int| 0 <= k < cells@.len()
                            && (#[trigger] cells@[k]).acoords() == c {
                            let k = choose|k: int| 0 <= k < cells@.len()
                                && (#[trigger] cells@[k]).acoords() == c;
                            assert(spec_cell_coords(cells_t[k]) == c);
                        }
                    }
                }
            }
        }
        Ok(board)
    }
}

/// The pieces a list of `piece` elements denotes, from index `i` on:
/// nothing when any element fails to decode.
pub open spec fn spec_decode_pieces_from(ns: Seq<XmlNode>, i: int) -> Option<Seq<Piece>>
    decreases ns.len() - i,
    when 0 <= i
{
    if i >= ns.len() {
        Some(Seq::empty())
    } else {
        match (spec_piece_of_node(ns[i]), spec_decode_pieces_from(ns, i + 1)) {
            (Some(p), Some(rest)) => Some(seq![p] + rest),
            _ => None,
        }
    }
}

/// The reserve a named child denotes: its `piece` children, in order,
/// when the child exists and every one of them decodes.
pub open spec fn spec_reserve_of_node(node: XmlNode, key: Seq<char>) -> Option<Seq<Piece>> {
    if node.spec_childs_named(key).len() > 0 {
        spec_decode_pieces_from(
            node.spec_childs_named(key)[0].spec_childs_named("piece"@),
            0,
        )
    } else {
        None
    }
}

/// Decodes a list of undeployed pieces below the named child: exactly
/// the pieces its `piece` children denote.
fn pieces_from_node(node: &XmlNode, key: &str) -> (r: SCResult<Pieces>)
    ensures
        r is Ok ==> node.spec_has_child(key@),
        r is Ok <==> spec_reserve_of_node(*node, key@) is Some,
        r matches Ok(ps) ==> spec_reserve_of_node(*node, key@) == Some(ps.pieces@),
{
    let holder = match node.child_by_name(key) {
        Ok(h) => h,
        Err(e) => {
            return Err(e);
        },
    };
    let piece_nodes = holder.childs_by_name("piece");
    let ghost ns = holder.spec_childs_named("piece"@);
    proof {
        assert(spec_reserve_of_node(*node, key@) == spec_decode_pieces_from(ns, 0));
        if spec_decode_pieces_from(ns, 0) is Some {
            let rest = spec_decode_pieces_from(ns, 0)->Some_0;
            assert(Seq::<Piece>::empty() + rest =~= rest);
        }
    }
    let mut pieces: Vec<Piece> = Vec::new();
    let mut i: usize = 0;
    while i < piece_nodes.len()
        invariant
            piece_nodes@.len() == ns.len(),
            forall|k: int| 0 <= k < piece_nodes@.len()
                ==> *(#[trigger] piece_nodes@[k]) == ns[k],
            i <= ns.len(),
            pieces@.len() == i,
            spec_reserve_of_node(*node, key@) == spec_decode_pieces_from(ns, 0),
            (match spec_decode_pieces_from(ns, i as int) {
                Some(rest) => spec_decode_pieces_from(ns, 0) == Some(pieces@ + rest),
                None => spec_decode_pieces_from(ns, 0) is None,
            }),
        decreases piece_nodes@.len() - i,
    {
        match Piece::from_node(piece_nodes[i]) {
            Ok(p) => {
                let ghost ppre = pieces@;
                pieces.push(p);
                proof {
                    assert(spec_piece_of_node(ns[i as int]) == Some(p));
                    if spec_decode_pieces_from(ns, i + 1) is Some {
                        let rest = spec_decode_pieces_from(ns, i + 1)->Some_0;
                        assert(spec_decode_pieces_from(ns, i as int)
                            == Some(seq![p] + rest));
                        assert(ppre + (seq![p] + rest) =~= pieces@ + rest);
                    }
                }
            },
            Err(e) => {
                proof {
                    assert(spec_piece_of_node(ns[i as int]) is None);
                    assert(spec_decode_pieces_from(ns, i as int) is None);
                }
                return Err(e);
            },
        }
        i += 1;
    }
    proof {
        assert(spec_decode_pieces_from(ns, ns.len() as int) == Some(Seq::<Piece>::empty()));
        assert(pieces@ + Seq::<Piece>::empty() =~= pieces@);
    }
    Ok(Pieces { pieces })
}

/// Whether a `player` element decodes: a named color and a display name.
pub open spec fn spec_player_decodes(n: XmlNode) -> bool {
    &&& (match n.spec_attr("color"@) {
        Some(v) => PlayerColor::spec_from_name(v) is Some,
        None => false,
    })
    &&& n.spec_attr("displayName"@) is Some
}

/// Whether a list of decoded cells puts the given piece on the board:
/// some stack whose position is not shadowed by an earlier cell holds it.
pub open spec fn spec_cells_hold(cs: Seq<(int, int, Seq<Piece>, bool)>, p: Piece) -> bool {
    exists|k: int| #![trigger cs[k]]
        0 <= k < cs.len()
            && (forall|k2: int| 0 <= k2 < k
                ==> spec_cell_coords(cs[k2]) != spec_cell_coords(cs[k]))
            && cs[k].2.contains(p)
}

/// The named child a snapshot part sits under, when present.
pub open spec fn spec_first_child(n: XmlNode, name: Seq<char>) -> XmlNode {
    n.spec_childs_named(name)[0]
}

/// Whether a `state` node decodes to a snapshot: every part present and
/// parseable, and each color's Bee either on the board or in reserve.
pub open spec fn spec_snapshot_decodes(n: XmlNode) -> bool {
    &&& (match n.spec_attr("turn"@) {
        Some(v) => crate::strings::spec_is_numeral(v)
            && 0 <= crate::strings::spec_numeral_value(v) <= 0x7fff_ffff,
        None => false,
    })
    &&& (match n.spec_attr("startPlayerColor"@) {
        Some(v) => PlayerColor::spec_from_name(v) is Some,
        None => false,
    })
    &&& (match n.spec_attr("currentPlayerColor"@) {
        Some(v) => PlayerColor::spec_from_name(v) is Some,
        None => false,
    })
    &&& n.spec_childs_named("red"@).len() > 0
        && spec_player_decodes(spec_first_child(n, "red"@))
    &&& n.spec_childs_named("blue"@).len() > 0
        && spec_player_decodes(spec_first_child(n, "blue"@))
    &&& n.spec_childs_named("board"@).len() > 0
        && spec_board_cells_of_node(spec_first_child(n, "board"@)) is Some
    &&& spec_reserve_of_node(n, "undeployedRedPieces"@) is Some
    &&& spec_reserve_of_node(n, "undeployedBluePieces"@) is Some
    &&& {
        let cs = spec_board_cells_of_node(spec_first_child(n, "board"@))->Some_0;
        let red_bee = Piece { owner: PlayerColor::Red, piece_type: PieceType::Bee };
        let blue_bee = Piece { owner: PlayerColor::Blue, piece_type: PieceType::Bee };
        &&& (spec_cells_hold(cs, red_bee)
            || spec_reserve_of_node(n, "undeployedRedPieces"@)->Some_0.contains(red_bee))
        &&& (spec_cells_hold(cs, blue_bee)
            || spec_reserve_of_node(n, "undeployedBluePieces"@)->Some_0.contains(blue_bee))
    }
}

/// An index with a given position has a first index with that position.
proof fn lemma_first_occurrence(cs: Seq<(int, int, Seq<Piece>, bool)>, k: int)
    requires
        0 <= k < cs.len(),
    ensures
        exists|k1: int| #![trigger cs[k1]]
            0 <= k1 < cs.len()
                && spec_cell_coords(cs[k1]) == spec_cell_coords(cs[k])
                && forall|k2: int| 0 <= k2 < k1
                    ==> spec_cell_coords(cs[k2]) != spec_cell_coords(cs[k1]),
    decreases k,
{
    if forall|k2: int| 0 <= k2 < k
        ==> spec_cell_coords(#[trigger] cs[k2]) != spec_cell_coords(cs[k]) {
        assert(cs[k] == cs[k]);
    } else {
        let k2 = choose|k2: int| 0 <= k2 < k
            && spec_cell_coords(#[trigger] cs[k2]) == spec_cell_coords(cs[k]);
        lemma_first_occurrence(cs, k2);
    }
}

/// On a board built from decoded cells, a piece is somewhere on the
/// board exactly when some unshadowed decoded stack holds it.
proof fn lemma_board_holds_cells(b: Board, cs: Seq<(int, int, Seq<Piece>, bool)>, p: Piece)
    requires
        b.wf(),
        spec_board_matches_cells(b, cs),
    ensures
        b.spec_contains_piece(p) == spec_cells_hold(cs, p),
{
    if b.spec_contains_piece(p) {
        let (i, j) = choose|i: int, j: int|
            0 <= i < b.s().len() && 0 <= j < b.s()[i].pieces@.len()
                && b.s()[i].pieces@[j] == p;
        let c = b.s()[i].acoords();
        assert(b.has(c)) by {
            assert(b.s()[i].acoords() == c);
        }
        assert(b.fields.spec_index_of(c) == i);
        assert(b.at(c) == b.s()[i]);
        if exists|k: int| 0 <= k < cs.len() && spec_cell_coords(#[trigger] cs[k]) == c {
            let k = choose|k: int| 0 <= k < cs.len() && spec_cell_coords(#[trigger] cs[k]) == c;
            lemma_first_occurrence(cs, k);
            let k1 = choose|k1: int| #![trigger cs[k1]]
                0 <= k1 < cs.len()
                    && spec_cell_coords(cs[k1]) == spec_cell_coords(cs[k])
                    && forall|k2: int| 0 <= k2 < k1
                        ==> spec_cell_coords(cs[k2]) != spec_cell_coords(cs[k1]);
            assert(b.at(c).pieces@ == cs[k1].2);
            assert(cs[k1].2.contains(p)) by {
                assert(cs[k1].2[j] == p);
            }
        } else {
            assert(b.at(c).pieces@.len() == 0);
            assert(false);
        }
    }
    if spec_cells_hold(cs, p) {
        let k = choose|k: int| #![trigger cs[k]]
            0 <= k < cs.len()
                && (forall|k2: int| 0 <= k2 < k
                    ==> spec_cell_coords(cs[k2]) != spec_cell_coords(cs[k]))
                && cs[k].2.contains(p);
        let c = spec_cell_coords(cs[k]);
        assert(b.has(c)) by {
            assert(spec_cell_coords(cs[k]) == c);
        }
        assert(b.at(c).pieces@ == cs[k].2);
        let j = choose|j: int| 0 <= j < cs[k].2.len() && cs[k].2[j] == p;
        let i = b.fields.spec_index_of(c);
        assert(b.s()[i].pieces@[j] == p);
    }
}

impl GameState {
    /// Decodes a full snapshot from a `state` node: the turn counter, the
    /// two colors, both players, the board and the undeployed reserves.
    /// It succeeds exactly when every part is present and parseable and
    /// each color's Bee is either on the board or in its reserve, so a
    /// decoded snapshot is always well-formed.
    pub fn from_node(node: &XmlNode) -> (r: SCResult<GameState>)
        ensures
            r is Ok <==> spec_snapshot_decodes(*node),
            r matches Ok(s) ==> s.wf(),
            r matches Ok(s) ==> {
                &&& Some(s.turn as int) == (match node.spec_attr("turn"@) {
                    Some(v) => Some(crate::strings::spec_numeral_value(v)),
                    None => None,
                })
                &&& (match node.spec_attr("startPlayerColor"@) {
                    Some(v) => PlayerColor::spec_from_name(v) == Some(s.start_player_color),
                    None => false,
                })
                &&& (match node.spec_attr("currentPlayerColor"@) {
                    Some(v) => PlayerColor::spec_from_name(v) == Some(s.current_player_color),
                    None => false,
                })
                &&& spec_reserve_of_node(*node, "undeployedRedPieces"@)
                    == Some(s.undeployed_red_pieces.pieces@)
                &&& spec_reserve_of_node(*node, "undeployedBluePieces"@)
                    == Some(s.undeployed_blue_pieces.pieces@)
                &&& (match spec_board_cells_of_node(spec_first_child(*node, "board"@)) {
                    Some(cs) => spec_board_matches_cells(s.board, cs),
                    None => false,
                })
            },
    {
        let turn = match node.attribute("turn") {
            Ok(s) => match parse_u32(s) {
                Ok(v) => v,
                Err(e) => {
                    return Err(e);
                },
            },
            Err(e) => {
                return Err(e);
            },
        };
        let start_player_color = match color_from_node(node, "startPlayerColor") {
            Ok(c) => c,
            Err(e) => {
                return Err(e);
            },
        };
        let current_player_color = match color_from_node(node, "currentPlayerColor") {
            Ok(c) => c,
            Err(e) => {
                return Err(e);
            },
        };
        let red_player = match node.child_by_name("red") {
            Ok(n) => match Player::from_node(n) {
                Ok(p) => p,
                Err(e) => {
                    return Err(e);
                },
            },
            Err(e) => {
                return Err(e);
            },
        };
        let blue_player = match node.child_by_name("blue") {
            Ok(n) => match Player::from_node(n) {
                Ok(p) => p,
                Err(e) => {
                    return Err(e);
                },
            },
            Err(e) => {
                return Err(e);
            },
        };
        let board = match node.child_by_name("board") {
            Ok(n) => match Board::from_node(n) {
                Ok(b) => b,
                Err(e) => {
                    return Err(e);
                },
            },
            Err(e) => {
                return Err(e);
            },
        };
        let undeployed_red_pieces = match pieces_from_node(node, "undeployedRedPieces") {
            Ok(p) => p,
            Err(e) => {
                return Err(e);
            },
        };
        let undeployed_blue_pieces = match pieces_from_node(node, "undeployedBluePieces") {
            Ok(p) => p,
            Err(e) => {
                return Err(e);
            },
        };
        let state = GameState {
            turn,
            start_player_color,
            current_player_color,
            board,
            red_player,
            blue_player,
            undeployed_red_pieces,
            undeployed_blue_pieces,
        };
        proof {
            let cs = spec_board_cells_of_node(spec_first_child(*node, "board"@))->Some_0;
            lemma_board_holds_cells(state.board, cs,
                Piece { owner: PlayerColor::Red, piece_type: PieceType::Bee });
            lemma_board_holds_cells(state.board, cs,
                Piece { owner: PlayerColor::Blue, piece_type: PieceType::Bee });
        }
        // a snapshot that has lost track of a Bee entirely is malformed
        if !state.board.has_placed_bee(PlayerColor::Red)
            && !state.undeployed_red_pieces.contains(
                &Piece::new(PlayerColor::Red, PieceType::Bee),
            ) {
            return Err(SCError::custom("the red Bee is neither placed nor in reserve"));
        }
        if !state.board.has_placed_bee(PlayerColor::Blue)
            && !state.undeployed_blue_pieces.contains(
                &Piece::new(PlayerColor::Blue, PieceType::Bee),
            ) {
            return Err(SCError::custom("the blue Bee is neither placed nor in reserve"));
        }
        Ok(state)
    }
}

impl FromXmlNode for GameState {
    fn from_node(node: &XmlNode) -> SCResult<GameState> {
        GameState::from_node(node)
    }
}

impl FromXmlNode for Board {
    fn from_node(node: &XmlNode) -> SCResult<Board> {
        Board::from_node(node)
    }
}

impl FromXmlNode for Piece {
    fn from_node(node: &XmlNode) -> SCResult<Piece> {
        Piece::from_node(node)
    }
}

impl FromXmlNode for Player {
    fn from_node(node: &XmlNode) -> SCResult<Player> {
        Player::from_node(node)
    }
}

/// Whether a node is the wire encoding of the given piece: a `piece` tag
/// with `owner` and `type` attributes and nothing else.
pub open spec fn spec_piece_node(n: XmlNode, p: Piece) -> bool {
    &&& n.name@ == "piece"@
    &&& n.attributes@.len() == 2
    &&& n.attributes@[0].0@ == "owner"@ && n.attributes@[0].1@ == p.owner.spec_name()
    &&& n.attributes@[1].0@ == "type"@ && n.attributes@[1].1@ == p.piece_type.spec_name()
    &&& n.childs@.len() == 0
}

/// Whether a node is the wire encoding of the given cell under the given
/// tag: a `field`-classed element with cube coordinates, the obstruction
/// flag, and one child per stacked piece.
pub open spec fn spec_field_node(n: XmlNode, f: Field, tag: Seq<char>) -> bool {
    &&& n.name@ == tag
    &&& n.attributes@.len() == 5
    &&& n.attributes@[0].0@ == "class"@ && n.attributes@[0].1@ == "field"@
    &&& n.attributes@[1].0@ == "x"@ && n.attributes@[1].1@ == crate::strings::spec_render_i32(f.x as int)
    &&& n.attributes@[2].0@ == "y"@ && n.attributes@[2].1@ == crate::strings::spec_render_i32(f.y as int)
    &&& n.attributes@[3].0@ == "z"@
        && n.attributes@[3].1@ == crate::strings::spec_render_i32(-(f.x + f.y))
    &&& n.attributes@[4].0@ == "isObstructed"@
        && n.attributes@[4].1@ == (if f.is_obstructed { "true"@ } else { "false"@ })
    &&& n.childs@.len() == f.pieces@.len()
    &&& forall|k: int| 0 <= k < f.pieces@.len()
        ==> spec_piece_node(#[trigger] n.childs@[k], f.pieces@[k])
}

impl Piece {
    /// Encodes the piece as a `piece` element for the wire protocol.
    pub fn to_node(&self) -> (r: XmlNode)
        ensures
            spec_piece_node(r, *self),
    {
        XmlNode::new("piece")
            .attribute("owner", self.owner.name().as_str())
            .attribute("type", self.piece_type.name().as_str())
            .build()
    }
}

impl Field {
    /// Encodes the cell as a `field`-classed element under the given tag,
    /// carrying its cube coordinates, obstruction flag and piece stack.
    pub fn to_node(&self, tag: &str) -> (r: XmlNode)
        requires
            self.acoords().in_range(),
        ensures
            spec_field_node(r, *self, tag@),
    {
        let cube = self.cube_coords();
        let mut builder = XmlNode::new(tag)
            .attribute("class", "field")
            .attribute("x", format_i32(cube.x()).as_str())
            .attribute("y", format_i32(cube.y()).as_str())
            .attribute("z", format_i32(cube.z()).as_str())
            .attribute("isObstructed", if self.is_obstructed { "true" } else { "false" });
        let mut i: usize = 0;
        while i < self.pieces.len()
            invariant
                builder.name@ == tag@,
                builder.attributes@.len() == 5,
                builder.attributes@[0].0@ == "class"@ && builder.attributes@[0].1@ == "field"@,
                builder.attributes@[1].0@ == "x"@
                    && builder.attributes@[1].1@ == crate::strings::spec_render_i32(self.x as int),
                builder.attributes@[2].0@ == "y"@
                    && builder.attributes@[2].1@ == crate::strings::spec_render_i32(self.y as int),
                builder.attributes@[3].0@ == "z"@
                    && builder.attributes@[3].1@
                        == crate::strings::spec_render_i32(-(self.x + self.y)),
                builder.attributes@[4].0@ == "isObstructed"@
                    && builder.attributes@[4].1@
                        == (if self.is_obstructed { "true"@ } else { "false"@ }),
                i <= self.pieces@.len(),
                builder.childs@.len() == i,
                forall|k: int| 0 <= k < i
                    ==> spec_piece_node(#[trigger] builder.childs@[k], self.pieces@[k]),
            decreases self.pieces@.len() - i,
        {
            builder = builder.child(self.pieces[i].to_node());
            i += 1;
        }
        builder.build()
    }
}

impl Move {
    /// Encodes the move as a `data` element for the wire protocol: a
    /// `setmove` with the piece and its destination, or a `dragmove` with
    /// its start and destination cells.
    pub fn to_node(&self) -> (r: XmlNode)
        requires
            (match *self {
                Move::SetMove { destination, .. } => destination.acoords().in_range(),
                Move::DragMove { start, destination } => start.acoords().in_range()
                    && destination.acoords().in_range(),
            }),
        ensures
            r.name@ == "data"@,
            (match *self {
                Move::SetMove { piece, destination } => {
                    &&& r.attributes@.len() == 1
                    &&& r.attributes@[0].0@ == "class"@ && r.attributes@[0].1@ == "setmove"@
                    &&& r.childs@.len() == 2
                    &&& spec_piece_node(r.childs@[0], piece)
                    &&& spec_field_node(r.childs@[1], destination, "destination"@)
                },
                Move::DragMove { start, destination } => {
                    &&& r.attributes@.len() == 1
                    &&& r.attributes@[0].0@ == "class"@ && r.attributes@[0].1@ == "dragmove"@
                    &&& r.childs@.len() == 2
                    &&& spec_field_node(r.childs@[0], start, "start"@)
                    &&& spec_field_node(r.childs@[1], destination, "destination"@)
                },
            }),
    {
        match self {
            Move::SetMove { piece, destination } => {
                XmlNode::new("data")
                    .attribute("class", "setmove")
                    .child(piece.to_node())
                    .child(destination.to_node("destination"))
                    .build()
            },
            Move::DragMove { start, destination } => {
                XmlNode::new("data")
                    .attribute("class", "dragmove")
                    .child(start.to_node("start"))
                    .child(destination.to_node("destination"))
                    .build()
            },
        }
    }
}

} // verus!
