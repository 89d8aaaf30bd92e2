//! The human-readable ASCII hex-grid fixture format: a parser and a
//! matching renderer, independent of the wire protocol.

use regex::Regex;
use vstd::prelude::*;
use crate::error::{SCError, SCResult};
use crate::game::board::Board;
use crate::game::field::Field;
use crate::game::piece::Piece;
use crate::game::piece_type::PieceType;
use crate::game::player_color::PlayerColor;
use crate::strings::{chars_to_string, split_chars, str_chars, trim_chars};
use crate::util::{AxialCoords, DoubledCoords};

verus! {

/// Relies on regex's `Regex::captures` with the field syntax
/// `^([A-Z])([A-Z])$`: a match means exactly two upper-case ASCII
/// letters, which are returned.
#[verifier::external_body]
fn match_field_token(raw: &str) -> (r: Option<(char, char)>)
    ensures
        r matches Some(p) ==> raw@.len() == 2 && p.0 == raw@[0] && p.1 == raw@[1]
            && 'A' <= p.0 <= 'Z' && 'A' <= p.1 <= 'Z',
        r is None ==> !(raw@.len() == 2 && 'A' <= raw@[0] <= 'Z' && 'A' <= raw@[1] <= 'Z'),
{
    let re = Regex::new(r"^([A-Z])([A-Z])$").unwrap();
    match re.captures(raw) {
        Some(groups) => {
            let a = groups[1].chars().next().unwrap();
            let b = groups[2].chars().next().unwrap();
            Some((a, b))
        },
        None => None,
    }
}

/// The piece a cell token denotes: exactly two upper-case letters, the
/// piece type then the owner color; anything else denotes no piece.
pub open spec fn spec_token_piece(tok: Seq<char>) -> Option<Piece> {
    if tok.len() == 2 && 'A' <= tok[0] <= 'Z' && 'A' <= tok[1] <= 'Z' {
        match (PieceType::spec_from_char(tok[0]), PlayerColor::spec_from_char(tok[1])) {
            (Some(t), Some(c)) => Some(Piece { owner: c, piece_type: t }),
            _ => None,
        }
    } else {
        None
    }
}

impl Field {
    /// Converts a field in a two-character notation to a field: the first
    /// character names the piece type, the second the owner color. An
    /// empty token gives an empty field; obstructed fields and stacks are
    /// not supported by the notation.
    pub fn from_short(coords: AxialCoords, raw: &str) -> (r: SCResult<Field>)
        ensures
            r is Ok <==> raw@.len() == 0 || spec_token_piece(raw@) is Some,
            r matches Ok(f) ==> f.acoords() == coords && !f.is_obstructed
                && f.pieces@ == (match spec_token_piece(raw@) {
                    Some(p) => seq![p],
                    None => Seq::<Piece>::empty(),
                }),
    {
        if raw.unicode_len() == 0 {
            return Ok(Field::from_coords(coords));
        }
        let (type_char, owner_char) = match match_field_token(raw) {
            Some(p) => p,
            None => {
                return Err(SCError::custom("token does not match the field syntax"));
            },
        };
        let owner = match PlayerColor::from_char(owner_char) {
            Some(c) => c,
            None => {
                return Err(SCError::custom("unknown player color"));
            },
        };
        let piece_type = match PieceType::from_char(type_char) {
            Some(t) => t,
            None => {
                return Err(SCError::custom("unknown piece type"));
            },
        };
        let mut pieces: Vec<Piece> = Vec::new();
        pieces.push(Piece::new(owner, piece_type));
        proof {
            assert(spec_token_piece(raw@)
                == Some(Piece { owner, piece_type }));
            assert(pieces@ =~= seq![Piece { owner, piece_type }]);
        }
        Ok(Field::new(coords, pieces, false))
    }
}

/// The trimmed lines of the grid from index `i` on, dropping blank lines
/// until the first non-blank one.
pub open spec fn spec_kept_from(raws: Seq<Seq<char>>, i: int, started: bool) -> Seq<Seq<char>>
    decreases raws.len() - i,
    when 0 <= i
{
    if i >= raws.len() {
        Seq::empty()
    } else {
        let t = crate::strings::spec_trim(raws[i]);
        if !started && t.len() == 0 {
            spec_kept_from(raws, i + 1, false)
        } else {
            seq![t] + spec_kept_from(raws, i + 1, true)
        }
    }
}

/// The grid's cell lines: split at newlines, trimmed, leading blank
/// lines dropped.
pub open spec fn spec_grid_lines(grid: Seq<char>) -> Seq<Seq<char>> {
    spec_kept_from(crate::strings::spec_split(grid, '\n'), 0, false)
}

/// The tokens of one cell row from its pipe-split fragments, from
/// fragment `j` on: each non-empty fragment becomes a trimmed token at
/// the doubled position of its cell.
pub open spec fn spec_frag_tokens_from(frags: Seq<Seq<char>>, j: int, row: int, x: int) -> Seq<(DoubledCoords, Seq<char>)>
    decreases frags.len() - j,
    when 0 <= j
{
    if j >= frags.len() {
        Seq::empty()
    } else if frags[j].len() == 0 {
        spec_frag_tokens_from(frags, j + 1, row, x)
    } else {
        seq![(
            DoubledCoords { x: (2 * x + (row + 1) % 2) as i32, y: row as i32 },
            crate::strings::spec_trim(frags[j]),
        )] + spec_frag_tokens_from(frags, j + 1, row, x + 1)
    }
}

/// The tokens of every third line from `line_idx` on.
pub open spec fn spec_rows_tokens_from(lines: Seq<Seq<char>>, line_idx: int, row: int) -> Seq<(DoubledCoords, Seq<char>)>
    decreases lines.len() + 3 - line_idx,
    when 0 <= line_idx
{
    if line_idx >= lines.len() {
        Seq::empty()
    } else {
        spec_frag_tokens_from(crate::strings::spec_split(lines[line_idx], '|'), 0, row, 0)
            + spec_rows_tokens_from(lines, line_idx + 3, row + 1)
    }
}

/// All cell tokens of a grid, with their doubled positions: the cell
/// rows sit on every third kept line, starting at the third.
pub open spec fn spec_grid_tokens(grid: Seq<char>) -> Seq<(DoubledCoords, Seq<char>)> {
    spec_rows_tokens_from(spec_grid_lines(grid), 2, 0)
}

/// The largest doubled x-position among the first `n` tokens.
pub open spec fn spec_tok_max_x(toks: Seq<(DoubledCoords, Seq<char>)>, n: int) -> int
    decreases n,
{
    if n <= 0 {
        0
    } else {
        let m = spec_tok_max_x(toks, n - 1);
        if toks[n - 1].0.x > m {
            toks[n - 1].0.x as int
        } else {
            m
        }
    }
}

/// The largest doubled y-position among the first `n` tokens.
pub open spec fn spec_tok_max_y(toks: Seq<(DoubledCoords, Seq<char>)>, n: int) -> int
    decreases n,
{
    if n <= 0 {
        0
    } else {
        let m = spec_tok_max_y(toks, n - 1);
        if toks[n - 1].0.y > m {
            toks[n - 1].0.y as int
        } else {
            m
        }
    }
}

/// A token's board position: its doubled position, shifted by the grid
/// center, back in axial space.
pub open spec fn spec_recentered(d: DoubledCoords, cx: int, cy: int) -> AxialCoords {
    crate::util::spec_doubled_to_axial(
        DoubledCoords { x: (d.x - cx) as i32, y: (d.y - cy) as i32 },
    )
}

/// The cells a parsed grid holds: one cell per token, at the token's
/// re-centered position, holding the piece the token denotes.
pub open spec fn spec_grid_cells_match(b: Board, toks: Seq<(DoubledCoords, Seq<char>)>) -> bool {
    let cx = spec_tok_max_x(toks, toks.len() as int) / 2;
    let cy = spec_tok_max_y(toks, toks.len() as int) / 2;
    &&& forall|c: AxialCoords| b.has(c)
        <==> exists|k: int| 0 <= k < toks.len()
            && spec_recentered((#[trigger] toks[k]).0, cx, cy) == c
    &&& forall|k: int| #![trigger toks[k]] 0 <= k < toks.len()
        && (forall|k2: int| 0 <= k2 < k
            ==> spec_recentered(toks[k2].0, cx, cy) != spec_recentered(toks[k].0, cx, cy))
        ==> !b.at(spec_recentered(toks[k].0, cx, cy)).is_obstructed
            && b.at(spec_recentered(toks[k].0, cx, cy)).pieces@
                == (match spec_token_piece(toks[k].1) {
                    Some(p) => seq![p],
                    None => Seq::<Piece>::empty(),
                })
}

impl Board {
    /// Parses a board from a plain-text hex grid: rows of pipe-delimited
    /// two-character cell tokens on every third line, with alternating
    /// indentation, centered on the middle of the grid. The parsed cells
    /// are exactly the grid's tokens at their re-centered positions.
    pub fn from_ascii_hex_grid(grid: &str) -> (r: SCResult<Board>)
        ensures
            r matches Ok(b) ==> b.wf()
                && spec_grid_cells_match(b, spec_grid_tokens(grid@)),
    {
        let all_chars = str_chars(grid);
        let raw_lines = split_chars(&all_chars, '\n');
        let ghost raws_v = crate::strings::spec_split(grid@, '\n');
        proof {
            assert(raw_lines@.len() == raws_v.len());
            assert(forall|k: int| 0 <= k < raw_lines@.len()
                ==> (#[trigger] raw_lines@[k])@ == raws_v[k]);
        }
        // keep the trimmed lines, dropping leading blank ones
        let mut lines: Vec<Vec<char>> = Vec::new();
        let ghost mut lines_v: Seq<Seq<char>> = Seq::empty();
        let mut i: usize = 0;
        let mut started = false;
        while i < raw_lines.len()
            invariant
                raw_lines@.len() == raws_v.len(),
                forall|k: int| 0 <= k < raw_lines@.len()
                    ==> (#[trigger] raw_lines@[k])@ == raws_v[k],
                i <= raw_lines@.len(),
                lines@.len() == lines_v.len(),
                forall|k: int| 0 <= k < lines@.len() ==> (#[trigger] lines@[k])@ == lines_v[k],
                spec_kept_from(raws_v, 0, false)
                    == lines_v + spec_kept_from(raws_v, i as int, started),
            decreases raw_lines@.len() - i,
        {
            let ghost started_pre = started;
            let ghost t = crate::strings::spec_trim(raws_v[i as int]);
            let trimmed = trim_chars(&raw_lines[i]);
            proof {
                assert(trimmed@ == t);
            }
            let ghost pre_lines = lines_v;
            if trimmed.len() > 0 {
                started = true;
            }
            if started {
                lines.push(trimmed);
                proof {
                    lines_v = lines_v.push(t);
                    assert(forall|k: int| 0 <= k < pre_lines.len()
                        ==> lines@[k]@ == lines_v[k]);
                    assert(lines@[pre_lines.len() as int]@ == lines_v[pre_lines.len() as int]);
                    assert(pre_lines + (seq![t] + spec_kept_from(raws_v, i + 1, true))
                        =~= lines_v + spec_kept_from(raws_v, i + 1, true));
                    assert(spec_kept_from(raws_v, i as int, started_pre)
                        == seq![t] + spec_kept_from(raws_v, i + 1, true));
                }
            } else {
                proof {
                    assert(spec_kept_from(raws_v, i as int, started_pre)
                        == spec_kept_from(raws_v, i + 1, false));
                }
            }
            i += 1;
        }
        proof {
            assert(lines_v == spec_grid_lines(grid@)) by {
                assert(spec_kept_from(raws_v, raws_v.len() as int, started) =~= Seq::<Seq<char>>::empty());
                assert(lines_v + Seq::<Seq<char>>::empty() =~= lines_v);
            }
        }
        if lines.len() > 30000 {
            return Err(SCError::custom("grid has too many lines"));
        }
        // the cell rows sit on every third line, starting at the third
        let mut tokens: Vec<(DoubledCoords, Vec<char>)> = Vec::new();
        let ghost mut toks_v: Seq<(DoubledCoords, Seq<char>)> = Seq::empty();
        let mut row: usize = 0;
        let mut line_idx: usize = 2;
        while line_idx < lines.len()
            invariant
                lines@.len() <= 30000,
                lines@.len() == lines_v.len(),
                forall|k: int| 0 <= k < lines@.len() ==> (#[trigger] lines@[k])@ == lines_v[k],
                row <= line_idx,
                line_idx == 3 * row + 2,
                tokens@.len() == toks_v.len(),
                forall|k: int| #![trigger tokens@[k]] 0 <= k < tokens@.len()
                    ==> tokens@[k].0 == toks_v[k].0 && tokens@[k].1@ == toks_v[k].1,
                forall|k: int| 0 <= k < toks_v.len()
                    ==> 0 <= (#[trigger] toks_v[k]).0.x < 70000 && 0 <= toks_v[k].0.y < 30000,
                spec_rows_tokens_from(lines_v, 2, 0)
                    == toks_v + spec_rows_tokens_from(lines_v, line_idx as int, row as int),
            decreases lines@.len() + 3 - line_idx,
        {
            let fragments = split_chars(&lines[line_idx], '|');
            let ghost frags_v = crate::strings::spec_split(lines_v[line_idx as int], '|');
            proof {
                assert(fragments@.len() == frags_v.len());
                assert(forall|k: int| 0 <= k < fragments@.len()
                    ==> (#[trigger] fragments@[k])@ == frags_v[k]);
            }
            if fragments.len() > 30000 {
                return Err(SCError::custom("grid row has too many cells"));
            }
            let ghost row_base = toks_v;
            let mut x: usize = 0;
            let mut frag_idx: usize = 0;
            while frag_idx < fragments.len()
                invariant
                    lines@.len() <= 30000,
                    fragments@.len() <= 30000,
                    fragments@.len() == frags_v.len(),
                    forall|k: int| 0 <= k < fragments@.len()
                        ==> (#[trigger] fragments@[k])@ == frags_v[k],
                    row < 30000,
                    x <= frag_idx,
                    frag_idx <= fragments@.len(),
                    tokens@.len() == toks_v.len(),
                    forall|k: int| #![trigger tokens@[k]] 0 <= k < tokens@.len()
                        ==> tokens@[k].0 == toks_v[k].0 && tokens@[k].1@ == toks_v[k].1,
                    forall|k: int| 0 <= k < toks_v.len()
                        ==> 0 <= (#[trigger] toks_v[k]).0.x < 70000 && 0 <= toks_v[k].0.y < 30000,
                    row_base + spec_frag_tokens_from(frags_v, 0, row as int, 0)
                        == toks_v + spec_frag_tokens_from(frags_v, frag_idx as int,
                            row as int, x as int),
                decreases fragments@.len() - frag_idx,
            {
                let frag = &fragments[frag_idx];
                if frag.len() > 0 {
                    let dx: i32 = 2 * (x as i32) + (((row as i32) + 1) % 2);
                    let dy: i32 = row as i32;
                    let ghost tpre = tokens@;
                    tokens.push((DoubledCoords::new(dx, dy), trim_chars(frag)));
                    proof {
                        toks_v = toks_v.push((
                            DoubledCoords { x: dx, y: dy },
                            crate::strings::spec_trim(frags_v[frag_idx as int]),
                        ));
                        assert(forall|k: int| 0 <= k < tpre.len() ==> tokens@[k] == tpre[k]);
                        assert(tokens@[tpre.len() as int].0 == toks_v[tpre.len() as int].0
                            && tokens@[tpre.len() as int].1@ == toks_v[tpre.len() as int].1);
                    }
                    x += 1;
                }
                frag_idx += 1;
            }
            proof {
                assert(spec_frag_tokens_from(frags_v, frags_v.len() as int, row as int, x as int)
                    =~= Seq::<(DoubledCoords, Seq<char>)>::empty());
                assert(toks_v =~= row_base + spec_frag_tokens_from(frags_v, 0, row as int, 0));
            }
            row += 1;
            line_idx += 3;
        }
        proof {
            assert(spec_rows_tokens_from(lines_v, line_idx as int, row as int)
                =~= Seq::<(DoubledCoords, Seq<char>)>::empty());
            assert(toks_v =~= spec_rows_tokens_from(lines_v, 2, 0));
            assert(toks_v == spec_grid_tokens(grid@));
        }
        // center the grid on its middle cell
        let mut max_x: i32 = 0;
        let mut max_y: i32 = 0;
        let mut k: usize = 0;
        while k < tokens.len()
            invariant
                k <= tokens@.len(),
                tokens@.len() == toks_v.len(),
                forall|kk: int| #![trigger tokens@[kk]] 0 <= kk < tokens@.len()
                    ==> tokens@[kk].0 == toks_v[kk].0 && tokens@[kk].1@ == toks_v[kk].1,
                forall|t: int| 0 <= t < toks_v.len()
                    ==> 0 <= (#[trigger] toks_v[t]).0.x < 70000 && 0 <= toks_v[t].0.y < 30000,
                0 <= max_x < 70000,
                0 <= max_y < 30000,
                max_x == spec_tok_max_x(toks_v, k as int),
                max_y == spec_tok_max_y(toks_v, k as int),
            decreases tokens@.len() - k,
        {
            let d = tokens[k].0;
            proof {
                assert(d == toks_v[k as int].0);
            }
            if d.x > max_x {
                max_x = d.x;
            }
            if d.y > max_y {
                max_y = d.y;
            }
            k += 1;
        }
        let center = DoubledCoords::new(((max_x as u32) / 2) as i32, ((max_y as u32) / 2) as i32);
        let ghost cx = spec_tok_max_x(toks_v, toks_v.len() as int) / 2;
        let ghost cy = spec_tok_max_y(toks_v, toks_v.len() as int) / 2;
        proof {
            assert(center.x == cx && center.y == cy);
        }
        let mut board = Board::new();
        let mut k: usize = 0;
        while k < tokens.len()
            invariant
                board.wf(),
                k <= tokens@.len(),
                tokens@.len() == toks_v.len(),
                forall|kk: int| #![trigger tokens@[kk]] 0 <= kk < tokens@.len()
                    ==> tokens@[kk].0 == toks_v[kk].0 && tokens@[kk].1@ == toks_v[kk].1,
                forall|t: int| 0 <= t < toks_v.len()
                    ==> 0 <= (#[trigger] toks_v[t]).0.x < 70000 && 0 <= toks_v[t].0.y < 30000,
                0 <= cx < 70000,
                0 <= cy < 30000,
                center.x == cx && center.y == cy,
                forall|c: AxialCoords| board.has(c)
                    <==> exists|kk: int| 0 <= kk < k
                        && spec_recentered((#[trigger] toks_v[kk]).0, cx, cy) == c,
                forall|kk: int| #![trigger toks_v[kk]] 0 <= kk < k
                    && (forall|k2: int| 0 <= k2 < kk
                        ==> spec_recentered(toks_v[k2].0, cx, cy)
                            != spec_recentered(toks_v[kk].0, cx, cy))
                    ==> !board.at(spec_recentered(toks_v[kk].0, cx, cy)).is_obstructed
                        && board.at(spec_recentered(toks_v[kk].0, cx, cy)).pieces@
                            == (match spec_token_piece(toks_v[kk].1) {
                                Some(p) => seq![p],
                                None => Seq::<Piece>::empty(),
                            }),
            decreases tokens@.len() - k,
        {
            let d = tokens[k].0;
            let rel = DoubledCoords::new(d.x - center.x, d.y - center.y);
            let coords = rel.to_axial();
            proof {
                assert(d == toks_v[k as int].0);
                assert(coords == spec_recentered(toks_v[k as int].0, cx, cy));
            }
            let token = chars_to_string(tokens[k].1.clone());
            proof {
                assert(token@ == toks_v[k as int].1) by {
                    assert(tokens@[k as int].1@ == toks_v[k as int].1);
                }
            }
            let parsed = match Field::from_short(coords, token.as_str()) {
                Ok(f) => f,
                Err(_) => Field::from_coords(coords),
            };
            proof {
                assert(crate::game::fields::coords_ok(parsed.acoords()));
                assert(parsed.acoords() == coords && !parsed.is_obstructed
                    && parsed.pieces@ == (match spec_token_piece(toks_v[k as int].1) {
                        Some(p) => seq![p],
                        None => Seq::<Piece>::empty(),
                    })) by {
                    if token@.len() == 0 {
                        assert(spec_token_piece(toks_v[k as int].1) is None);
                    }
                }
            }
            let ghost pre_board = board;
            board.push_field(&parsed);
            proof {
                assert forall|c: AxialCoords| board.has(c) implies
                    exists|kk: int| 0 <= kk < k + 1
                        && spec_recentered((#[trigger] toks_v[kk]).0, cx, cy) == c by {
                    if pre_board.has(c) {
                        let kk = choose|kk: int| 0 <= kk < k
                            && spec_recentered((#[trigger] toks_v[kk]).0, cx, cy) == c;
                    } else {
                        assert(c == coords);
                        assert(spec_recentered(toks_v[k as int].0, cx, cy) == c);
                    }
                }
                assert forall|kk: int| #![trigger toks_v[kk]] 0 <= kk < k + 1
                    && (forall|k2: int| 0 <= k2 < kk
                        ==> spec_recentered(toks_v[k2].0, cx, cy)
                            != spec_recentered(toks_v[kk].0, cx, cy))
                    implies !board.at(spec_recentered(toks_v[kk].0, cx, cy)).is_obstructed
                        && board.at(spec_recentered(toks_v[kk].0, cx, cy)).pieces@
                            == (match spec_token_piece(toks_v[kk].1) {
                                Some(p) => seq![p],
                                None => Seq::<Piece>::empty(),
                            }) by {
                    let rc = spec_recentered(toks_v[kk].0, cx, cy);
                    if kk < k {
                        assert(!pre_board.at(rc).is_obstructed
                            && pre_board.at(rc).pieces@
                                == (match spec_token_piece(toks_v[kk].1) {
                                    Some(p) => seq![p],
                                    None => Seq::<Piece>::empty(),
                                }));
                        assert(pre_board.has(rc)) by {
                            assert(spec_recentered(toks_v[kk].0, cx, cy) == rc);
                        }
                        assert(board.at(rc) == pre_board.at(rc));
                    } else {
                        assert(rc == coords);
                        assert(!pre_board.has(rc)) by {
                            if pre_board.has(rc) {
                                let k2 = choose|k2: int| 0 <= k2 < k
                                    && spec_recentered((#[trigger] toks_v[k2]).0, cx, cy) == rc;
                                assert(spec_recentered(toks_v[k2].0, cx, cy)
                                    == spec_recentered(toks_v[kk].0, cx, cy));
                            }
                        }
                        assert(board.at(coords).same_cell(parsed));
                    }
                }
            }
            k += 1;
        }
        proof {
            assert(spec_grid_cells_match(board, spec_grid_tokens(grid@))) by {
                assert(toks_v == spec_grid_tokens(grid@));
            }
        }
        Ok(board)
    }

    /// Renders the board as an ASCII hex grid that
    /// [`Board::from_ascii_hex_grid`] parses back, recovering the same
    /// occupied cells: exactly the text of [`spec_render_grid`].
    pub fn render_ascii_hex_grid(&self) -> (r: String)
        requires
            self.wf(),
            self.s().len() > 0,
            forall|i: int| 0 <= i < self.s().len()
                ==> -100 < (#[trigger] self.s()[i]).x < 100 && -100 < self.s()[i].y < 100,
        ensures
            r@ == spec_render_grid(*self),
    {
        // doubled-space bounding box of the board
        let mut min_dx: i32 = 0;
        let mut max_dx: i32 = 0;
        let mut min_dy: i32 = 0;
        let mut max_dy: i32 = 0;
        let mut i: usize = 0;
        while i < self.fields.fields.len()
            invariant
                self.wf(),
                forall|t: int| 0 <= t < self.s().len()
                    ==> -100 < (#[trigger] self.s()[t]).x < 100 && -100 < self.s()[t].y < 100,
                i <= self.s().len(),
                -200 <= min_dx <= 0 <= max_dx <= 200,
                -200 <= min_dy <= 0 <= max_dy <= 200,
                min_dx == spec_min_dx(*self, i as int),
                max_dx == spec_max_dx(*self, i as int),
                min_dy == spec_min_dy(*self, i as int),
                max_dy == spec_max_dy(*self, i as int),
            decreases self.s().len() - i,
        {
            let f = &self.fields.fields[i];
            proof {
                assert(*f == self.s()[i as int]);
            }
            let dx = f.x - f.y;
            let dy = -(f.x + f.y);
            if dx < min_dx {
                min_dx = dx;
            }
            if dx > max_dx {
                max_dx = dx;
            }
            if dy < min_dy {
                min_dy = dy;
            }
            if dy > max_dy {
                max_dy = dy;
            }
            i += 1;
        }
        // the parser re-centers on half the maximum token position, so lay
        // the cells out symmetrically around the grid's middle
        let mut h: i32 = if -min_dy > max_dy { -min_dy } else { max_dy };
        if h == 0 {
            h = 1;
        }
        let mut w: i32 = if -min_dx > max_dx { -min_dx } else { max_dx };
        // token parity: column dx + w must match the row's indent bit
        if (w + h + 1) % 2 != 0 {
            w = w + 1;
        }
        proof {
            assert(h == spec_grid_h(*self));
            assert(w == spec_grid_w(*self));
        }
        let mut out: Vec<char> = Vec::new();
        let mut gy: i32 = 0;
        while gy <= 2 * h
            invariant
                self.wf(),
                1 <= h <= 201,
                0 <= w <= 402,
                h == spec_grid_h(*self),
                w == spec_grid_w(*self),
                0 <= gy <= 2 * h + 1,
                out@ =~= spec_grid_rows(*self, h as int, w as int, gy as int),
            decreases 2 * h + 1 - gy,
        {
            out.push('/');
            out.push('\\');
            out.push('\n');
            out.push('/');
            out.push('\\');
            out.push('\n');
            let parity: i32 = (gy + 1) % 2;
            out.push('|');
            let ghost row_base = out@;
            let mut xi: i32 = 0;
            while 2 * xi + parity <= 2 * w
                invariant
                    self.wf(),
                    1 <= h <= 201,
                    0 <= w <= 402,
                    0 <= gy <= 2 * h,
                    parity == spec_parity(gy as int),
                    0 <= parity <= 1,
                    0 <= xi <= w + 1 - parity,
                    row_base == spec_grid_rows(*self, h as int, w as int, gy as int)
                        + spec_row_decor() + seq!['|'],
                    out@ =~= row_base
                        + spec_row_cells(*self, h as int, w as int, gy as int,
                            parity as int, xi as int),
                decreases 2 * w + 2 - 2 * xi,
            {
                let dx = 2 * xi + parity - w;
                let dy = gy - h;
                // back to axial space: the doubled sums are even here
                let ax = DoubledCoords::new(dx, dy).to_axial();
                proof {
                    assert(ax == crate::util::spec_doubled_to_axial(
                        DoubledCoords { x: dx, y: dy },
                    ));
                }
                let ghost cell_base = out@;
                let mut placed = false;
                match self.fields.get(ax) {
                    Some(f) => {
                        match f.piece() {
                            Some(p) => {
                                out.push(p.piece_type.to_char());
                                out.push(p.owner.to_char());
                                out.push(' ');
                                placed = true;
                            },
                            None => {},
                        }
                    },
                    None => {},
                }
                if !placed {
                    out.push(' ');
                    out.push(' ');
                    out.push(' ');
                }
                out.push('|');
                proof {
                    assert(out@ =~= cell_base
                        + spec_token_text(*self, dx as int, dy as int) + seq!['|']);
                    assert(out@ =~= row_base
                        + spec_row_cells(*self, h as int, w as int, gy as int,
                            parity as int, xi + 1));
                }
                xi += 1;
            }
            out.push('\n');
            proof {
                assert(xi == w + 1 - parity);
                assert(out@ =~= spec_grid_rows(*self, h as int, w as int, gy + 1));
            }
            gy += 1;
        }
        proof {
            assert(out@ =~= spec_render_grid(*self));
        }
        chars_to_string(out)
    }
}

/// The smallest doubled x-coordinate among the first `n` board cells.
pub open spec fn spec_min_dx(b: Board, n: int) -> int
    decreases n,
{
    if n <= 0 {
        0
    } else {
        let d = b.s()[n - 1].x - b.s()[n - 1].y;
        let m = spec_min_dx(b, n - 1);
        if d < m {
            d
        } else {
            m
        }
    }
}

/// The largest doubled x-coordinate among the first `n` board cells.
pub open spec fn spec_max_dx(b: Board, n: int) -> int
    decreases n,
{
    if n <= 0 {
        0
    } else {
        let d = b.s()[n - 1].x - b.s()[n - 1].y;
        let m = spec_max_dx(b, n - 1);
        if d > m {
            d
        } else {
            m
        }
    }
}

/// The smallest doubled y-coordinate among the first `n` board cells.
pub open spec fn spec_min_dy(b: Board, n: int) -> int
    decreases n,
{
    if n <= 0 {
        0
    } else {
        let d = -(b.s()[n - 1].x + b.s()[n - 1].y);
        let m = spec_min_dy(b, n - 1);
        if d < m {
            d
        } else {
            m
        }
    }
}

/// The largest doubled y-coordinate among the first `n` board cells.
pub open spec fn spec_max_dy(b: Board, n: int) -> int
    decreases n,
{
    if n <= 0 {
        0
    } else {
        let d = -(b.s()[n - 1].x + b.s()[n - 1].y);
        let m = spec_max_dy(b, n - 1);
        if d > m {
            d
        } else {
            m
        }
    }
}

/// Half the grid's height: the reach of the board in doubled rows, at
/// least one so that the re-centering lands on a whole cell.
pub open spec fn spec_grid_h(b: Board) -> int {
    let n = b.s().len() as int;
    let reach = if -spec_min_dy(b, n) > spec_max_dy(b, n) {
        -spec_min_dy(b, n)
    } else {
        spec_max_dy(b, n)
    };
    if reach == 0 {
        1
    } else {
        reach
    }
}

/// Half the grid's width: the reach of the board in doubled columns,
/// widened by one when needed so that every column lands on the right
/// indent parity.
pub open spec fn spec_grid_w(b: Board) -> int {
    let reach = if -spec_min_dx(b, b.s().len() as int) > spec_max_dx(b, b.s().len() as int) {
        -spec_min_dx(b, b.s().len() as int)
    } else {
        spec_max_dx(b, b.s().len() as int)
    };
    if (reach + spec_grid_h(b) + 1) % 2 != 0 {
        reach + 1
    } else {
        reach
    }
}

/// The indent bit of a grid row.
pub open spec fn spec_parity(gy: int) -> int {
    (gy + 1) % 2
}

/// The three characters of one grid cell: the cell's top piece in
/// type-then-owner notation followed by a space, or blanks.
pub open spec fn spec_token_text(b: Board, dx: int, dy: int) -> Seq<char> {
    let ax = crate::util::spec_doubled_to_axial(DoubledCoords { x: dx as i32, y: dy as i32 });
    if b.has(ax) && b.at(ax).pieces@.len() > 0 {
        seq![
            b.at(ax).pieces@.last().piece_type.spec_char(),
            b.at(ax).pieces@.last().owner.spec_char(),
            ' ',
        ]
    } else {
        seq![' ', ' ', ' ']
    }
}

/// The first `n` cells of a grid row, each token followed by a pipe.
pub open spec fn spec_row_cells(b: Board, h: int, w: int, gy: int, parity: int, n: int) -> Seq<char>
    decreases n,
{
    if n <= 0 {
        Seq::empty()
    } else {
        spec_row_cells(b, h, w, gy, parity, n - 1)
            + spec_token_text(b, 2 * (n - 1) + parity - w, gy - h) + seq!['|']
    }
}

/// The two decoration lines drawn above every cell row.
pub open spec fn spec_row_decor() -> Seq<char> {
    seq!['/', '\\', '\n', '/', '\\', '\n']
}

/// The first `n` rows of the grid: decoration, then the pipe-delimited
/// cell row of width `w + 1 - parity`.
pub open spec fn spec_grid_rows(b: Board, h: int, w: int, n: int) -> Seq<char>
    decreases n,
{
    if n <= 0 {
        Seq::empty()
    } else {
        spec_grid_rows(b, h, w, n - 1) + spec_row_decor() + seq!['|']
            + spec_row_cells(b, h, w, n - 1, spec_parity(n - 1), w + 1 - spec_parity(n - 1))
            + seq!['\n']
    }
}

/// The full ASCII hex-grid text of a board: `2 h + 1` rows centered on
/// the board's doubled-space middle.
pub open spec fn spec_render_grid(b: Board) -> Seq<char> {
    spec_grid_rows(b, spec_grid_h(b), spec_grid_w(b), 2 * spec_grid_h(b) + 1)
}

} // verus!
