//! The four corners of the square board.

use vstd::prelude::*;

verus! {

/// A corner of the board.
#[derive(Debug, Copy, Clone, PartialEq, Eq, Hash, Structural)]
pub enum Corner {
    TopLeft,
    TopRight,
    BottomLeft,
    BottomRight,
}

/// Fetches all four corners.
pub fn corners() -> (r: Vec<Corner>)
    ensures
        r@ == seq![Corner::TopLeft, Corner::TopRight, Corner::BottomLeft, Corner::BottomRight],
{
    let r = vec![Corner::TopLeft, Corner::TopRight, Corner::BottomLeft, Corner::BottomRight];
    proof {
        assert(r@ =~= seq![Corner::TopLeft, Corner::TopRight, Corner::BottomLeft,
            Corner::BottomRight]);
    }
    r
}

} // verus!
