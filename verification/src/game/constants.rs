//! Fixed parameters of the ruleset.

use vstd::prelude::*;

verus! {

/// The number of rounds after which a match is scored as it stands.
pub const ROUND_LIMIT: usize = 30;

/// The board is a centered hexagon with this side length.
pub const BOARD_RADIUS: usize = 6;

/// The number of cells of a hexagon with side length [`BOARD_RADIUS`].
pub const FIELD_COUNT: usize = 91;

/// Number of cells of a centered hexagon with side length `r`:
/// one cell, plus six more per ring.
pub open spec fn hex_cell_count(r: nat) -> nat
    decreases r,
{
    if r <= 1 {
        1
    } else {
        (hex_cell_count((r - 1) as nat) + 6 * (r - 1)) as nat
    }
}

/// The closed form of [`hex_cell_count`]: `3 r (r - 1) + 1`.
pub proof fn lemma_hex_cell_count_closed(r: nat)
    requires
        r >= 1,
    ensures
        hex_cell_count(r) == 3 * r * (r - 1) + 1,
    decreases r,
{
    if r > 1 {
        lemma_hex_cell_count_closed((r - 1) as nat);
        assert(3 * r * (r - 1) == 3 * (r - 1) * (r - 2) + 6 * (r - 1)) by (nonlinear_arith);
    }
}

/// The fixed board holds exactly [`FIELD_COUNT`] cells.
pub proof fn lemma_field_count()
    ensures
        hex_cell_count(BOARD_RADIUS as nat) == FIELD_COUNT,
{
    reveal_with_fuel(hex_cell_count, 7);
}

/// The number of cells in row `y` of the hexagon reaching out `inner`
/// steps: `2 * inner + 1` minus the offset of the row.
pub open spec fn hex_row_len(inner: int, y: int) -> int {
    if y >= 0 {
        2 * inner + 1 - y
    } else {
        2 * inner + 1 + y
    }
}

/// The number of cells in the rows `-inner ..= y` of the hexagon.
pub open spec fn hex_count_upto(inner: int, y: int) -> int
    decreases y + inner + 1,
{
    if y < -inner || inner < 0 {
        0
    } else {
        hex_count_upto(inner, y - 1) + hex_row_len(inner, y)
    }
}

/// Partial sums over the ascending rows of the hexagon.
proof fn lemma_hex_count_ascending(inner: int, y: int)
    requires
        inner >= 0,
        -inner - 1 <= y <= 0,
    ensures
        2 * hex_count_upto(inner, y) == (y + inner + 1) * (2 * (2 * inner + 1) + y - inner),
    decreases y + inner + 1,
{
    if y == -inner - 1 {
        assert((y + inner + 1) * (2 * (2 * inner + 1) + y - inner) == 0) by (nonlinear_arith)
            requires y == -inner - 1;
    } else {
        lemma_hex_count_ascending(inner, y - 1);
        assert(2 * hex_count_upto(inner, y)
            == (y + inner) * (2 * (2 * inner + 1) + y - 1 - inner) + 2 * (2 * inner + 1 + y));
        assert((y + inner) * (2 * (2 * inner + 1) + y - 1 - inner) + 2 * (2 * inner + 1 + y)
            == (y + inner + 1) * (2 * (2 * inner + 1) + y - inner)) by (nonlinear_arith);
    }
}

/// Partial sums over the descending rows of the hexagon.
proof fn lemma_hex_count_descending(inner: int, y: int)
    requires
        inner >= 0,
        0 <= y <= inner,
    ensures
        2 * hex_count_upto(inner, y)
            == (inner + 1) * (3 * inner + 2) + 2 * y * (2 * inner + 1) - y * (y + 1),
    decreases y,
{
    if y == 0 {
        lemma_hex_count_ascending(inner, 0);
        assert((inner + 1) * (2 * (2 * inner + 1) - inner) == (inner + 1) * (3 * inner + 2))
            by (nonlinear_arith);
    } else {
        lemma_hex_count_descending(inner, y - 1);
        assert(2 * (y - 1) * (2 * inner + 1) - (y - 1) * y + 2 * (2 * inner + 1 - y)
            == 2 * y * (2 * inner + 1) - y * (y + 1)) by (nonlinear_arith);
    }
}

/// The row-by-row count of the hexagon agrees with the ring recurrence.
pub proof fn lemma_hex_count_matches(radius: int)
    requires
        1 <= radius,
    ensures
        hex_count_upto(radius - 1, radius - 1) == hex_cell_count(radius as nat),
{
    let inner = radius - 1;
    lemma_hex_count_descending(inner, inner);
    assert((inner + 1) * (3 * inner + 2) + 2 * inner * (2 * inner + 1) - inner * (inner + 1)
        == 2 * (3 * (inner + 1) * inner + 1)) by (nonlinear_arith);
    lemma_hex_cell_count_closed(radius as nat);
    assert(3 * radius * (radius - 1) == 3 * (inner + 1) * inner) by (nonlinear_arith)
        requires inner == radius - 1;
}

} // verus!
