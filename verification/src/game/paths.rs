//! Multi-step movement on the board: swarm connectivity and the crawl
//! searches used by the long-range piece types.

use vstd::prelude::*;
use vstd::seq_lib::*;
use vstd::set_lib::lemma_len_subset;
use crate::game::board::Board;
use crate::game::field::Field;
use crate::game::fields::coords_ok;
use crate::util::AxialCoords;

verus! {

impl Board {
    /// A chain of legal one-step crawls, with the dragged piece's start
    /// cell named by `exception` thought empty.
    pub open spec fn crawl_path_ok(self, exception: Option<AxialCoords>, p: Seq<AxialCoords>) -> bool {
        forall|i: int| 0 <= i < p.len() - 1 ==> self.step_ok(exception, #[trigger] p[i], p[i + 1])
    }

    /// Whether `d` can be reached from `s` by crawling along accessible
    /// cells; a cell reaches itself when it is on the board.
    pub open spec fn boundary_connected(self, exception: Option<AxialCoords>, s: AxialCoords, d: AxialCoords) -> bool {
        self.has(s) && exists|p: Seq<AxialCoords>|
            #[trigger] self.crawl_path_ok(exception, p) && p.len() >= 1 && p[0] == s
                && p.last() == d
    }

    /// A chain of adjacent cells that all hold pieces.
    pub open spec fn swarm_path_ok(self, p: Seq<AxialCoords>) -> bool {
        &&& forall|i: int| 0 <= i < p.len() ==> self.pieces_at(#[trigger] p[i])
        &&& forall|i: int| 0 <= i < p.len() - 1 ==> (#[trigger] p[i]).spec_adjacent(p[i + 1])
    }

    /// Whether two cells holding pieces are linked through the swarm.
    pub open spec fn swarm_connected_pair(self, s: AxialCoords, d: AxialCoords) -> bool {
        exists|p: Seq<AxialCoords>|
            #[trigger] self.swarm_path_ok(p) && p.len() >= 1 && p[0] == s && p.last() == d
    }

    /// The swarm is connected: any two cells holding pieces are linked by
    /// a chain of adjacent cells holding pieces.
    pub open spec fn swarm_connected(self) -> bool {
        forall|c: AxialCoords, d: AxialCoords|
            self.pieces_at(c) && self.pieces_at(d) ==> #[trigger] self.swarm_connected_pair(c, d)
    }

    /// The positions of the board's fields, in field order.
    pub open spec fn coords_seq(self) -> Seq<AxialCoords> {
        Seq::new(self.s().len() as nat, |i: int| self.s()[i].acoords())
    }
}

/// A duplicate-free sequence of distinct on-board positions is no longer
/// than the board itself.
proof fn lemma_onboard_seq_bound(board: Board, s: Seq<AxialCoords>)
    requires
        board.wf(),
        forall|k1: int, k2: int| 0 <= k1 < k2 < s.len() ==> s[k1] != s[k2],
        forall|k: int| 0 <= k < s.len() ==> board.has(#[trigger] s[k]),
    ensures
        s.len() <= board.s().len(),
{
    broadcast use vstd::set::group_set_axioms;
    let cs = board.coords_seq();
    assert forall|k: int| 0 <= k < s.len() implies cs.to_set().contains(#[trigger] s[k]) by {
        let i = board.fields.spec_index_of(s[k]);
        assert(cs[i] == s[k]);
        assert(cs.contains(s[k]));
    }
    assert(s.to_set().subset_of(cs.to_set())) by {
        assert forall|c: AxialCoords| s.to_set().contains(c) implies cs.to_set().contains(c) by {
            assert(s.contains(c));
            let k = choose|k: int| 0 <= k < s.len() && s[k] == c;
            assert(cs.to_set().contains(s[k]));
        }
    }
    s.unique_seq_to_set();
    cs.lemma_cardinality_of_set();
    lemma_len_subset(s.to_set(), cs.to_set());
}

/// Extending a crawl path by one legal step keeps the target reachable.
proof fn lemma_crawl_extend(board: Board, exception: Option<AxialCoords>, s: AxialCoords, v: AxialCoords, d: AxialCoords)
    requires
        board.boundary_connected(exception, s, v),
        board.step_ok(exception, v, d),
    ensures
        board.boundary_connected(exception, s, d),
{
    let p = choose|p: Seq<AxialCoords>|
        #[trigger] board.crawl_path_ok(exception, p) && p.len() >= 1 && p[0] == s
            && p.last() == v;
    let q = p.push(d);
    assert(board.crawl_path_ok(exception, q)) by {
        assert forall|i: int| 0 <= i < q.len() - 1 implies
            board.step_ok(exception, #[trigger] q[i], q[i + 1]) by {
            if i < p.len() - 1 {
                assert(board.step_ok(exception, p[i], p[i + 1]));
            } else {
                assert(q[i] == p.last() && q[i + 1] == d);
            }
        }
    }
    assert(q.len() >= 1 && q[0] == s && q.last() == d);
}

/// Extending a swarm path by one adjacent occupied cell.
proof fn lemma_swarm_extend(board: Board, s: AxialCoords, v: AxialCoords, d: AxialCoords)
    requires
        board.swarm_connected_pair(s, v),
        v.spec_adjacent(d),
        board.pieces_at(d),
    ensures
        board.swarm_connected_pair(s, d),
{
    let p = choose|p: Seq<AxialCoords>|
        #[trigger] board.swarm_path_ok(p) && p.len() >= 1 && p[0] == s && p.last() == v;
    let q = p.push(d);
    assert(board.swarm_path_ok(q)) by {
        assert forall|i: int| 0 <= i < q.len() implies board.pieces_at(#[trigger] q[i]) by {
            if i < p.len() {
                assert(board.pieces_at(p[i]));
            }
        }
        assert forall|i: int| 0 <= i < q.len() - 1 implies
            (#[trigger] q[i]).spec_adjacent(q[i + 1]) by {
            if i < p.len() - 1 {
                assert(p[i].spec_adjacent(p[i + 1]));
            } else {
                assert(q[i] == p.last() && q[i + 1] == d);
            }
        }
    }
    assert(q.len() >= 1 && q[0] == s && q.last() == d);
}

/// Every crawl path starting inside a step-closed collection of cells
/// stays inside it.
proof fn lemma_crawl_closure(
    board: Board,
    exception: Option<AxialCoords>,
    order: Seq<AxialCoords>,
    p: Seq<AxialCoords>,
)
    requires
        forall|k: int, d: AxialCoords| 0 <= k < order.len()
            && #[trigger] board.step_ok(exception, order[k], d)
            ==> order.contains(d),
        p.len() >= 1,
        board.crawl_path_ok(exception, p),
        order.contains(p[0]),
    ensures
        order.contains(p.last()),
    decreases p.len(),
{
    if p.len() > 1 {
        let q = p.drop_last();
        assert(board.crawl_path_ok(exception, q)) by {
            assert forall|i: int| 0 <= i < q.len() - 1 implies
                board.step_ok(exception, #[trigger] q[i], q[i + 1]) by {
                assert(board.step_ok(exception, p[i], p[i + 1]));
            }
        }
        lemma_crawl_closure(board, exception, order, q);
        let k = choose|k: int| 0 <= k < order.len() && order[k] == q.last();
        assert(board.step_ok(exception, p[p.len() - 2], p.last()));
        assert(board.step_ok(exception, order[k], p.last()));
    }
}

/// Every swarm path starting inside an adjacency-closed collection of
/// occupied cells stays inside it.
proof fn lemma_swarm_closure(board: Board, order: Seq<AxialCoords>, p: Seq<AxialCoords>)
    requires
        forall|k: int, d: AxialCoords| 0 <= k < order.len()
            && #[trigger] order[k].spec_adjacent(d) && board.pieces_at(d)
            ==> order.contains(d),
        p.len() >= 1,
        board.swarm_path_ok(p),
        order.contains(p[0]),
    ensures
        order.contains(p.last()),
    decreases p.len(),
{
    if p.len() > 1 {
        let q = p.drop_last();
        assert(board.swarm_path_ok(q)) by {
            assert forall|i: int| 0 <= i < q.len() implies
                board.pieces_at(#[trigger] q[i]) by {
                assert(board.pieces_at(p[i]));
            }
            assert forall|i: int| 0 <= i < q.len() - 1 implies
                (#[trigger] q[i]).spec_adjacent(q[i + 1]) by {
                assert(p[i].spec_adjacent(p[i + 1]));
            }
        }
        lemma_swarm_closure(board, order, q);
        let k = choose|k: int| 0 <= k < order.len() && order[k] == q.last();
        assert(p[p.len() - 2].spec_adjacent(p.last()));
        assert(order[k].spec_adjacent(p.last()));
        assert(board.pieces_at(p.last()));
    }
}

impl Board {
    /// Tests whether two coordinates are connected by a path along the
    /// swarm's boundary, the dragged piece's start cell (named by
    /// `exception`) counting as empty.
    #[verifier::spinoff_prover]
    #[verifier::rlimit(100)]
    pub fn connected_by_boundary_path_except(
        &self,
        exception: Option<AxialCoords>,
        start: AxialCoords,
        destination: AxialCoords,
    ) -> (r: bool)
        requires
            self.wf(),
            start.in_range(),
        ensures
            r == self.boundary_connected(exception, start, destination),
    {
        if !self.contains_coords(start) {
            return false;
        }
        let mut order: Vec<AxialCoords> = Vec::new();
        order.push(start);
        let mut head: usize = 0;
        proof {
            lemma_onboard_seq_bound(*self, order@);
            assert(self.boundary_connected(exception, start, start)) by {
                let p = seq![start];
                assert(self.crawl_path_ok(exception, p));
                assert(p.len() >= 1 && p[0] == start && p.last() == start);
            }
        }
        while head < order.len()
            invariant
                self.wf(),
                start.in_range(),
                self.has(start),
                head <= order@.len(),
                order@.len() <= self.s().len(),
                order@.len() >= 1,
                order@[0] == start,
                forall|k1: int, k2: int| 0 <= k1 < k2 < order@.len() ==> order@[k1] != order@[k2],
                forall|k: int| 0 <= k < order@.len() ==> self.has(#[trigger] order@[k]),
                forall|k: int| 0 <= k < order@.len() ==> coords_ok(#[trigger] order@[k]),
                forall|k: int| 0 <= k < order@.len()
                    ==> self.boundary_connected(exception, start, #[trigger] order@[k]),
                forall|k: int, d: AxialCoords| 0 <= k < head
                    && #[trigger] self.step_ok(exception, order@[k], d)
                    ==> order@.contains(d),
                forall|k: int| 0 <= k < head ==> order@[k] != destination,
            decreases self.s().len() + 1 - order@.len(), order@.len() - head,
        {
            let current = order[head];
            if current.x == destination.x && current.y == destination.y {
                return true;
            }
            let ghost pre = order@;
            let nexts = self.accessible_neighbors_except(exception, current);
            let mut j: usize = 0;
            while j < nexts.len()
                invariant
                    self.wf(),
                    start.in_range(),
                    self.has(start),
                    current == pre[head as int],
                    current.in_range(),
                    head < pre.len(),
                    forall|k: int| #![trigger nexts@[k]] 0 <= k < nexts@.len()
                        ==> self.step_ok(exception, current, nexts@[k].acoords()),
                    forall|d: AxialCoords| #[trigger] self.step_ok(exception, current, d)
                        ==> exists|k: int| 0 <= k < nexts@.len()
                            && (#[trigger] nexts@[k]).acoords() == d,
                    j <= nexts@.len(),
                    order@.len() >= pre.len(),
                    order@.len() <= self.s().len(),
                    forall|k: int| 0 <= k < pre.len() ==> order@[k] == pre[k],
                    forall|k1: int, k2: int| 0 <= k1 < k2 < order@.len()
                        ==> order@[k1] != order@[k2],
                    forall|k: int| 0 <= k < order@.len() ==> self.has(#[trigger] order@[k]),
                    forall|k: int| 0 <= k < order@.len() ==> coords_ok(#[trigger] order@[k]),
                    forall|k: int| 0 <= k < order@.len()
                        ==> self.boundary_connected(exception, start, #[trigger] order@[k]),
                    forall|k: int| 0 <= k < j
                        ==> order@.contains((#[trigger] nexts@[k]).acoords()),
                decreases nexts@.len() - j,
            {
                let c = nexts[j].coords();
                let mut seen = false;
                let mut t: usize = 0;
                while t < order.len()
                    invariant
                        0 <= t <= order@.len(),
                        j < nexts@.len(),
                        c == nexts@[j as int].acoords(),
                        seen == exists|k: int| 0 <= k < t && order@[k] == c,
                    decreases order@.len() - t,
                {
                    if order[t].x == c.x && order[t].y == c.y {
                        seen = true;
                        proof {
                            assert(order@[t as int] == c);
                        }
                    }
                    t += 1;
                }
                if !seen {
                    let ghost before = order@;
                    order.push(c);
                    proof {
                        assert(order@[before.len() as int] == c);
                        assert(forall|k: int| 0 <= k < before.len() ==> order@[k] == before[k]);
                        assert(self.step_ok(exception, current, c));
                        assert(self.boundary_connected(exception, start, current));
                        lemma_crawl_extend(*self, exception, start, current, c);
                        assert(self.has(c) && coords_ok(c)) by {
                            assert(self.empty_at(c));
                            let i = self.fields.spec_index_of(c);
                            assert(coords_ok(self.s()[i].acoords()));
                        }
                        lemma_onboard_seq_bound(*self, order@);
                    }
                }
                j += 1;
            }
            head += 1;
            proof {
                assert forall|k: int, d: AxialCoords| 0 <= k < head
                    && #[trigger] self.step_ok(exception, order@[k], d)
                    implies order@.contains(d) by {
                    if k < head - 1 {
                        assert(pre.contains(d)) by {
                            assert(self.step_ok(exception, pre[k], d));
                        }
                        let t = choose|t: int| 0 <= t < pre.len() && pre[t] == d;
                        assert(order@[t] == d);
                    } else {
                        let kk = choose|kk: int| 0 <= kk < nexts@.len()
                            && (#[trigger] nexts@[kk]).acoords() == d;
                        assert(order@.contains(nexts@[kk].acoords()));
                    }
                }
                assert forall|k: int| 0 <= k < head implies
                    order@[k] != destination by {
                    if k < head - 1 {
                        assert(pre[k] != destination);
                        assert(order@[k] == pre[k]);
                    } else {
                        assert(order@[k] == current);
                    }
                }
            }
        }
        proof {
            if self.boundary_connected(exception, start, destination) {
                let p = choose|p: Seq<AxialCoords>|
                    #[trigger] self.crawl_path_ok(exception, p) && p.len() >= 1 && p[0] == start
                        && p.last() == destination;
                assert(order@.contains(start)) by {
                    assert(order@[0] == start);
                }
                assert forall|k: int, d: AxialCoords| 0 <= k < order@.len()
                    && #[trigger] self.step_ok(exception, order@[k], d)
                    implies order@.contains(d) by {}
                lemma_crawl_closure(*self, exception, order@, p);
                let t = choose|t: int| 0 <= t < order@.len() && order@[t] == destination;
                assert(false);
            }
        }
        false
    }

    /// Tests whether two coordinates are connected by a path along the
    /// swarm's boundary.
    pub fn connected_by_boundary_path(&self, start: AxialCoords, destination: AxialCoords) -> (r: bool)
        requires
            self.wf(),
            start.in_range(),
        ensures
            r == self.boundary_connected(None, start, destination),
    {
        self.connected_by_boundary_path_except(None, start, destination)
    }

    /// Tests whether the swarm is connected: every cell holding pieces can
    /// be reached from every other along adjacent cells holding pieces.
    /// An empty swarm is connected.
    #[verifier::spinoff_prover]
    #[verifier::rlimit(100)]
    pub fn is_swarm_connected(&self) -> (r: bool)
        requires
            self.wf(),
        ensures
            r == self.swarm_connected(),
    {
        let mut start_opt: Option<AxialCoords> = None;
        let mut piece_cells: usize = 0;
        let mut i: usize = 0;
        while i < self.fields.fields.len()
            invariant
                self.wf(),
                i <= self.s().len(),
                piece_cells <= i,
                piece_cells == count_piece_cells(*self, i as int),
                match start_opt {
                    Some(s) => self.pieces_at(s) && s.in_range(),
                    None => forall|j: int| 0 <= j < i ==> (#[trigger] self.s()[j]).pieces@.len() == 0,
                },
            decreases self.s().len() - i,
        {
            let f = &self.fields.fields[i];
            proof {
                assert(*f == self.s()[i as int]);
                assert(self.fields.spec_index_of(f.acoords()) == i as int);
            }
            if f.has_pieces() {
                piece_cells += 1;
                if start_opt.is_none() {
                    start_opt = Some(f.coords());
                    proof {
                        assert(self.pieces_at(f.acoords()));
                        assert(coords_ok(f.acoords()));
                    }
                }
            }
            i += 1;
        }
        let start = match start_opt {
            Some(s) => s,
            None => {
                proof {
                    assert forall|c: AxialCoords, d: AxialCoords|
                        self.pieces_at(c) && self.pieces_at(d) implies
                        #[trigger] self.swarm_connected_pair(c, d) by {
                        let k = self.fields.spec_index_of(c);
                        assert(self.s()[k].pieces@.len() == 0);
                    }
                }
                return true;
            },
        };
        let mut order: Vec<AxialCoords> = Vec::new();
        order.push(start);
        let mut head: usize = 0;
        proof {
            lemma_onboard_seq_bound(*self, order@);
            assert(self.swarm_connected_pair(start, start)) by {
                let p = seq![start];
                assert(self.swarm_path_ok(p));
                assert(p.len() >= 1 && p[0] == start && p.last() == start);
            }
        }
        while head < order.len()
            invariant
                self.wf(),
                start.in_range(),
                self.pieces_at(start),
                piece_cells == count_piece_cells(*self, self.s().len() as int),
                head <= order@.len(),
                order@.len() <= self.s().len(),
                order@.len() >= 1,
                order@[0] == start,
                forall|k1: int, k2: int| 0 <= k1 < k2 < order@.len() ==> order@[k1] != order@[k2],
                forall|k: int| 0 <= k < order@.len() ==> self.pieces_at(#[trigger] order@[k]),
                forall|k: int| 0 <= k < order@.len() ==> coords_ok(#[trigger] order@[k]),
                forall|k: int| 0 <= k < order@.len()
                    ==> self.swarm_connected_pair(start, #[trigger] order@[k]),
                forall|k: int, d: AxialCoords| 0 <= k < head
                    && #[trigger] order@[k].spec_adjacent(d) && self.pieces_at(d)
                    ==> order@.contains(d),
            decreases self.s().len() + 1 - order@.len(), order@.len() - head,
        {
            let current = order[head];
            let ghost pre = order@;
            let nbs = self.neighbors(current);
            let mut j: usize = 0;
            while j < nbs.len()
                invariant
                    self.wf(),
                    start.in_range(),
                    self.pieces_at(start),
                    current == pre[head as int],
                    current.in_range(),
                    head < pre.len(),
                    forall|k: int| 0 <= k < nbs@.len()
                        ==> current.spec_adjacent((#[trigger] nbs@[k]).acoords())
                            && self.has(nbs@[k].acoords())
                            && *nbs@[k] == self.at(nbs@[k].acoords()),
                    forall|d: AxialCoords| #[trigger] current.spec_adjacent(d) && self.has(d)
                        ==> exists|k: int| 0 <= k < nbs@.len() && (#[trigger] nbs@[k]).acoords() == d,
                    j <= nbs@.len(),
                    order@.len() >= pre.len(),
                    order@.len() <= self.s().len(),
                    forall|k: int| 0 <= k < pre.len() ==> order@[k] == pre[k],
                    forall|k1: int, k2: int| 0 <= k1 < k2 < order@.len()
                        ==> order@[k1] != order@[k2],
                    forall|k: int| 0 <= k < order@.len() ==> self.pieces_at(#[trigger] order@[k]),
                    forall|k: int| 0 <= k < order@.len() ==> coords_ok(#[trigger] order@[k]),
                    forall|k: int| 0 <= k < order@.len()
                        ==> self.swarm_connected_pair(start, #[trigger] order@[k]),
                    forall|k: int| 0 <= k < j && (#[trigger] nbs@[k]).pieces@.len() > 0
                        ==> order@.contains(nbs@[k].acoords()),
                decreases nbs@.len() - j,
            {
                let f = nbs[j];
                let c = f.coords();
                if f.has_pieces() {
                    let mut seen = false;
                    let mut t: usize = 0;
                    while t < order.len()
                        invariant
                            0 <= t <= order@.len(),
                            j < nbs@.len(),
                            c == nbs@[j as int].acoords(),
                            seen == exists|k: int| 0 <= k < t && order@[k] == c,
                        decreases order@.len() - t,
                    {
                        if order[t].x == c.x && order[t].y == c.y {
                            seen = true;
                            proof {
                                assert(order@[t as int] == c);
                            }
                        }
                        t += 1;
                    }
                    if !seen {
                        let ghost before = order@;
                        order.push(c);
                        proof {
                            assert(order@[before.len() as int] == c);
                            assert(forall|k: int| 0 <= k < before.len() ==> order@[k] == before[k]);
                            assert(self.pieces_at(c));
                            assert(coords_ok(c)) by {
                                let i2 = self.fields.spec_index_of(c);
                                assert(coords_ok(self.s()[i2].acoords()));
                            }
                            lemma_swarm_extend(*self, start, current, c);
                            lemma_onboard_seq_bound(*self, order@);
                        }
                    }
                }
                j += 1;
            }
            head += 1;
            proof {
                assert forall|k: int, d: AxialCoords| 0 <= k < head
                    && #[trigger] order@[k].spec_adjacent(d) && self.pieces_at(d)
                    implies order@.contains(d) by {
                    if k < head - 1 {
                        assert(pre.contains(d)) by {
                            assert(pre[k].spec_adjacent(d));
                        }
                        let t = choose|t: int| 0 <= t < pre.len() && pre[t] == d;
                        assert(order@[t] == d);
                    } else {
                        let kk = choose|kk: int| 0 <= kk < nbs@.len()
                            && (#[trigger] nbs@[kk]).acoords() == d;
                        assert(nbs@[kk].pieces@.len() > 0) by {
                            assert(*nbs@[kk] == self.at(d));
                        }
                        assert(order@.contains(nbs@[kk].acoords()));
                    }
                }
            }
        }
        let connected = order.len() == piece_cells;
        proof {
            lemma_piece_cells_complete(*self, order@, piece_cells as int);
            if connected {
                assert forall|c: AxialCoords, d: AxialCoords|
                    self.pieces_at(c) && self.pieces_at(d) implies
                    #[trigger] self.swarm_connected_pair(c, d) by {
                    assert(order@.contains(c));
                    assert(order@.contains(d));
                    let kc = choose|k: int| 0 <= k < order@.len() && order@[k] == c;
                    let kd = choose|k: int| 0 <= k < order@.len() && order@[k] == d;
                    let pc = choose|p: Seq<AxialCoords>|
                        #[trigger] self.swarm_path_ok(p) && p.len() >= 1 && p[0] == start
                            && p.last() == c;
                    let pd = choose|p: Seq<AxialCoords>|
                        #[trigger] self.swarm_path_ok(p) && p.len() >= 1 && p[0] == start
                            && p.last() == d;
                    lemma_swarm_join(*self, pc, pd);
                }
            } else {
                let missing = choose|c: AxialCoords|
                    self.pieces_at(c) && !order@.contains(c);
                if self.swarm_connected() {
                    assert(self.swarm_connected_pair(start, missing));
                    let p = choose|p: Seq<AxialCoords>|
                        #[trigger] self.swarm_path_ok(p) && p.len() >= 1 && p[0] == start
                            && p.last() == missing;
                    assert(order@.contains(start)) by {
                        assert(order@[0] == start);
                    }
                    lemma_swarm_closure(*self, order@, p);
                    assert(false);
                }
            }
        }
        connected
    }
}

impl Board {
    /// The last hop of a three-step crawl: a fresh cell one legal step
    /// beyond `c2`.
    pub open spec fn spider_last(self, exception: Option<AxialCoords>, s: AxialCoords, c1: AxialCoords, c2: AxialCoords, d: AxialCoords) -> bool {
        self.step_ok(exception, c2, d) && d != s && d != c1 && d != c2
    }

    /// The middle of a three-step crawl from `c1`.
    pub open spec fn spider_mid(self, exception: Option<AxialCoords>, s: AxialCoords, c1: AxialCoords, d: AxialCoords) -> bool {
        exists|c2: AxialCoords|
            #[trigger] self.step_ok(exception, c1, c2) && c2 != s && c2 != c1
                && self.spider_last(exception, s, c1, c2, d)
    }

    /// Whether `d` is reachable from `s` by exactly three successive
    /// accessible-neighbor steps that never revisit a cell.
    pub open spec fn spider_reachable(self, exception: Option<AxialCoords>, s: AxialCoords, d: AxialCoords) -> bool {
        exists|c1: AxialCoords|
            #[trigger] self.step_ok(exception, s, c1) && c1 != s
                && self.spider_mid(exception, s, c1, d)
    }

    /// Tests one legal crawl step from `from` to `to`.
    fn is_accessible_step(&self, exception: Option<AxialCoords>, from: AxialCoords, to: AxialCoords) -> (r: bool)
        requires
            self.wf(),
            from.in_range(),
        ensures
            r == self.step_ok(exception, from, to),
    {
        match self.field(to) {
            Some(f) => {
                if f.is_empty() {
                    proof {
                        let i = self.fields.spec_index_of(to);
                        assert(coords_ok(self.s()[i].acoords()));
                    }
                    from.is_adjacent_to(to) && self.can_move_between_except(exception, from, to)
                } else {
                    false
                }
            },
            None => false,
        }
    }

    /// Tests whether the given cell can be reached in exactly 3 moves,
    /// searching the accessible cells with the start thought empty.
    pub fn bfs_reachable_in_3_steps(&self, start: AxialCoords, destination: AxialCoords) -> (r: bool)
        requires
            self.wf(),
            start.in_range(),
        ensures
            r == self.spider_reachable(Some(start), start, destination),
    {
        let ghost exc = Some(start);
        let acc1 = self.accessible_neighbors_except(Some(start), start);
        let mut i: usize = 0;
        while i < acc1.len()
            invariant
                self.wf(),
                start.in_range(),
                exc == Some(start),
                forall|k: int| #![trigger acc1@[k]] 0 <= k < acc1@.len()
                    ==> self.step_ok(exc, start, acc1@[k].acoords())
                        && *acc1@[k] == self.at(acc1@[k].acoords()),
                forall|d: AxialCoords| #[trigger] self.step_ok(exc, start, d)
                    ==> exists|k: int| 0 <= k < acc1@.len() && (#[trigger] acc1@[k]).acoords() == d,
                i <= acc1@.len(),
                forall|k: int| 0 <= k < i
                    ==> !((#[trigger] acc1@[k]).acoords() != start
                        && self.spider_mid(exc, start, acc1@[k].acoords(), destination)),
            decreases acc1@.len() - i,
        {
            let c1 = acc1[i].coords();
            proof {
                let i2 = self.fields.spec_index_of(c1);
                assert(coords_ok(self.s()[i2].acoords()));
            }
            if !(c1.x == start.x && c1.y == start.y) {
                let acc2 = self.accessible_neighbors_except(Some(start), c1);
                let mut j: usize = 0;
                while j < acc2.len()
                    invariant
                        self.wf(),
                        start.in_range(),
                        exc == Some(start),
                        c1 == acc1@[i as int].acoords(),
                        c1.in_range(),
                        c1 != start,
                        i < acc1@.len(),
                        self.step_ok(exc, start, c1),
                        forall|k: int| #![trigger acc2@[k]] 0 <= k < acc2@.len()
                            ==> self.step_ok(exc, c1, acc2@[k].acoords())
                                && *acc2@[k] == self.at(acc2@[k].acoords()),
                        forall|d: AxialCoords| #[trigger] self.step_ok(exc, c1, d)
                            ==> exists|k: int| 0 <= k < acc2@.len()
                                && (#[trigger] acc2@[k]).acoords() == d,
                        j <= acc2@.len(),
                        forall|k: int| 0 <= k < j
                            ==> !((#[trigger] acc2@[k]).acoords() != start
                                && acc2@[k].acoords() != c1
                                && self.spider_last(exc, start, c1, acc2@[k].acoords(), destination)),
                    decreases acc2@.len() - j,
                {
                    let c2 = acc2[j].coords();
                    proof {
                        let i3 = self.fields.spec_index_of(c2);
                        assert(coords_ok(self.s()[i3].acoords()));
                    }
                    if !(c2.x == start.x && c2.y == start.y) && !(c2.x == c1.x && c2.y == c1.y) {
                        let fresh = !(destination.x == start.x && destination.y == start.y)
                            && !(destination.x == c1.x && destination.y == c1.y)
                            && !(destination.x == c2.x && destination.y == c2.y);
                        if fresh && self.is_accessible_step(Some(start), c2, destination) {
                            proof {
                                assert(self.spider_last(exc, start, c1, c2, destination));
                                assert(self.spider_mid(exc, start, c1, destination));
                                assert(self.spider_reachable(exc, start, destination));
                            }
                            return true;
                        }
                    }
                    j += 1;
                }
                proof {
                    if self.spider_mid(exc, start, c1, destination) {
                        let c2 = choose|c2: AxialCoords|
                            #[trigger] self.step_ok(exc, c1, c2) && c2 != start && c2 != c1
                                && self.spider_last(exc, start, c1, c2, destination);
                        let k = choose|k: int| 0 <= k < acc2@.len()
                            && (#[trigger] acc2@[k]).acoords() == c2;
                        assert(false);
                    }
                }
            }
            i += 1;
        }
        proof {
            if self.spider_reachable(exc, start, destination) {
                let c1 = choose|c1: AxialCoords|
                    #[trigger] self.step_ok(exc, start, c1) && c1 != start
                        && self.spider_mid(exc, start, c1, destination);
                let k = choose|k: int| 0 <= k < acc1@.len()
                    && (#[trigger] acc1@[k]).acoords() == c1;
                assert(false);
            }
        }
        false
    }

    /// Fetches the empty cells on the swarm's outer boundary: each is an
    /// existing empty field adjacent to an occupied one, and every such
    /// cell is yielded (once per occupied neighbor).
    pub fn swarm_boundary(&self) -> (r: Vec<&Field>)
        requires
            self.wf(),
        ensures
            forall|k: int| #![trigger r@[k]] 0 <= k < r@.len()
                ==> self.boundary_at(r@[k].acoords()) && *r@[k] == self.at(r@[k].acoords()),
            forall|c: AxialCoords| #[trigger] self.boundary_at(c)
                ==> exists|k: int| 0 <= k < r@.len() && (#[trigger] r@[k]).acoords() == c,
    {
        let occ = self.occupied_fields();
        let mut r: Vec<&Field> = Vec::new();
        let mut i: usize = 0;
        while i < occ.len()
            invariant
                self.wf(),
                forall|k: int| #![trigger occ@[k]] 0 <= k < occ@.len()
                    ==> occ@[k].spec_occupied() && self.has(occ@[k].acoords())
                        && *occ@[k] == self.at(occ@[k].acoords()),
                forall|c: AxialCoords| self.has(c) && self.at(c).spec_occupied()
                    ==> exists|k: int| 0 <= k < occ@.len() && (#[trigger] occ@[k]).acoords() == c,
                i <= occ@.len(),
                forall|k: int| #![trigger r@[k]] 0 <= k < r@.len()
                    ==> self.boundary_at(r@[k].acoords()) && *r@[k] == self.at(r@[k].acoords()),
                forall|c: AxialCoords, k: int| 0 <= k < i && self.empty_at(c)
                    && #[trigger] c.spec_adjacent(occ@[k].acoords())
                    ==> exists|t: int| 0 <= t < r@.len() && (#[trigger] r@[t]).acoords() == c,
            decreases occ@.len() - i,
        {
            let c = occ[i].coords();
            proof {
                let i2 = self.fields.spec_index_of(c);
                assert(coords_ok(self.s()[i2].acoords()));
            }
            let nbs = self.empty_neighbors(c);
            let ghost pre_outer = r@;
            let mut j: usize = 0;
            while j < nbs.len()
                invariant
                    self.wf(),
                    c.in_range(),
                    self.has(c),
                    self.at(c).spec_occupied(),
                    forall|k: int| 0 <= k < nbs@.len()
                        ==> c.spec_adjacent((#[trigger] nbs@[k]).acoords())
                            && self.empty_at(nbs@[k].acoords())
                            && *nbs@[k] == self.at(nbs@[k].acoords()),
                    forall|d: AxialCoords| #[trigger] c.spec_adjacent(d) && self.empty_at(d)
                        ==> exists|k: int| 0 <= k < nbs@.len()
                            && (#[trigger] nbs@[k]).acoords() == d,
                    j <= nbs@.len(),
                    r@.len() >= pre_outer.len(),
                    forall|k: int| 0 <= k < pre_outer.len() ==> r@[k] == pre_outer[k],
                    forall|k: int| #![trigger r@[k]] 0 <= k < r@.len()
                        ==> self.boundary_at(r@[k].acoords()) && *r@[k] == self.at(r@[k].acoords()),
                    forall|k: int| #![trigger nbs@[k]] 0 <= k < j
                        ==> exists|t: int| 0 <= t < r@.len()
                            && (#[trigger] r@[t]).acoords() == nbs@[k].acoords(),
                decreases nbs@.len() - j,
            {
                let f = nbs[j];
                let ghost rpre = r@;
                r.push(f);
                proof {
                    let d = nbs@[j as int].acoords();
                    let i3 = self.fields.spec_index_of(d);
                    assert(coords_ok(self.s()[i3].acoords()));
                    crate::util::lemma_adjacent_symm(c, d);
                    assert(self.boundary_at(d)) by {
                        assert(d.spec_adjacent(c) && self.has(c) && self.at(c).spec_occupied());
                    }
                    assert(r@[rpre.len() as int] == f);
                    assert(forall|k: int| 0 <= k < rpre.len() ==> r@[k] == rpre[k]);
                    assert forall|k: int| #![trigger nbs@[k]] 0 <= k < j + 1 implies
                        exists|t: int| 0 <= t < r@.len()
                            && (#[trigger] r@[t]).acoords() == nbs@[k].acoords() by {
                        if k < j {
                            let t = choose|t: int| 0 <= t < rpre.len()
                                && (#[trigger] rpre[t]).acoords() == nbs@[k].acoords();
                            assert(r@[t].acoords() == nbs@[k].acoords());
                        } else {
                            assert(r@[rpre.len() as int].acoords() == nbs@[k].acoords());
                        }
                    }
                }
                j += 1;
            }
            proof {
                assert forall|d: AxialCoords, k: int| 0 <= k < i + 1 && self.empty_at(d)
                    && #[trigger] d.spec_adjacent(occ@[k].acoords())
                    implies exists|t: int| 0 <= t < r@.len()
                        && (#[trigger] r@[t]).acoords() == d by {
                    if k < i {
                        let t = choose|t: int| 0 <= t < pre_outer.len()
                            && (#[trigger] pre_outer[t]).acoords() == d;
                        assert(r@[t].acoords() == d);
                    } else {
                        assert(occ@[k].acoords() == c);
                        let i4 = self.fields.spec_index_of(d);
                        assert(coords_ok(self.s()[i4].acoords()));
                        crate::util::lemma_adjacent_symm(c, d);
                        assert(c.spec_adjacent(d));
                        let kk = choose|kk: int| 0 <= kk < nbs@.len()
                            && (#[trigger] nbs@[kk]).acoords() == d;
                        let t = choose|t: int| 0 <= t < r@.len()
                            && (#[trigger] r@[t]).acoords() == nbs@[kk].acoords();
                    }
                }
            }
            i += 1;
        }
        proof {
            assert forall|c: AxialCoords| #[trigger] self.boundary_at(c) implies
                exists|k: int| 0 <= k < r@.len() && (#[trigger] r@[k]).acoords() == c by {
                let d = choose|d: AxialCoords| #[trigger] c.spec_adjacent(d) && self.has(d)
                    && self.at(d).spec_occupied();
                let k = choose|k: int| 0 <= k < occ@.len() && (#[trigger] occ@[k]).acoords() == d;
                assert(c.spec_adjacent(occ@[k].acoords()));
            }
        }
        r
    }
}

impl Board {
    /// Relates a board to `self` with the top piece at `start` removed:
    /// the same cells, the same stacks elsewhere, one piece fewer there.
    pub open spec fn popped_rel(self, start: AxialCoords, b2: Board) -> bool {
        &&& b2.wf()
        &&& forall|c: AxialCoords| b2.has(c) == self.has(c)
        &&& forall|c: AxialCoords| c != start && self.has(c)
            ==> (#[trigger] b2.at(c)).pieces@ == self.at(c).pieces@
        &&& self.has(start) ==> b2.at(start).pieces@ == self.at(start).pieces@.drop_last()
    }

    /// Whether the swarm stays connected once the top piece at `start` is
    /// removed: every board related to `self` that way is connected.
    pub open spec fn swarm_connected_without(self, start: AxialCoords) -> bool {
        forall|b2: Board| #[trigger] self.popped_rel(start, b2) ==> b2.swarm_connected()
    }

    /// Tests whether the swarm stays connected when the top piece at
    /// `start` is removed, using a disposable copy of the board.
    pub fn swarm_connected_after_removal(&self, start: AxialCoords) -> (r: bool)
        requires
            self.wf(),
            self.pieces_at(start),
        ensures
            r == self.swarm_connected_without(start),
    {
        let mut clone = self.duplicate();
        proof {
            assert forall|c: AxialCoords| clone.has(c) == self.has(c) by {}
        }
        clone.pop_piece_at(start);
        proof {
            assert(clone.pieces_at(start) == (self.at(start).pieces@.drop_last().len() > 0));
        }
        let r = clone.is_swarm_connected();
        proof {
            assert(self.popped_rel(start, clone)) by {
                assert forall|c: AxialCoords| c != start && self.has(c) implies
                    (#[trigger] clone.at(c)).pieces@ == self.at(c).pieces@ by {}
            }
            if r {
                assert forall|b2: Board| #[trigger] self.popped_rel(start, b2) implies
                    b2.swarm_connected() by {
                    assert forall|c: AxialCoords| clone.pieces_at(c) == b2.pieces_at(c) by {
                        if self.has(c) {
                            if c != start {
                                assert(clone.at(c).pieces@ == self.at(c).pieces@);
                                assert(b2.at(c).pieces@ == self.at(c).pieces@);
                            }
                        }
                    }
                    lemma_swarm_congruence(clone, b2);
                }
            } else {
                assert(!self.swarm_connected_without(start));
            }
        }
        r
    }
}

/// Two boards whose cells hold pieces at exactly the same positions have
/// the same swarm connectivity.
proof fn lemma_swarm_congruence(b1: Board, b2: Board)
    requires
        forall|c: AxialCoords| b1.pieces_at(c) == b2.pieces_at(c),
    ensures
        b1.swarm_connected() == b2.swarm_connected(),
{
    assert forall|p: Seq<AxialCoords>| #[trigger] b1.swarm_path_ok(p) == b2.swarm_path_ok(p) by {
        if b1.swarm_path_ok(p) {
            assert forall|i: int| 0 <= i < p.len() implies b2.pieces_at(#[trigger] p[i]) by {
                assert(b1.pieces_at(p[i]));
            }
        }
        if b2.swarm_path_ok(p) {
            assert forall|i: int| 0 <= i < p.len() implies b1.pieces_at(#[trigger] p[i]) by {
                assert(b2.pieces_at(p[i]));
            }
        }
    }
    assert forall|c: AxialCoords, d: AxialCoords|
        #[trigger] b1.swarm_connected_pair(c, d) == b2.swarm_connected_pair(c, d) by {
        if b1.swarm_connected_pair(c, d) {
            let p = choose|p: Seq<AxialCoords>|
                #[trigger] b1.swarm_path_ok(p) && p.len() >= 1 && p[0] == c && p.last() == d;
            assert(b2.swarm_path_ok(p));
        }
        if b2.swarm_connected_pair(c, d) {
            let p = choose|p: Seq<AxialCoords>|
                #[trigger] b2.swarm_path_ok(p) && p.len() >= 1 && p[0] == c && p.last() == d;
            assert(b1.swarm_path_ok(p));
        }
    }
    if b1.swarm_connected() {
        assert forall|c: AxialCoords, d: AxialCoords|
            b2.pieces_at(c) && b2.pieces_at(d) implies
            #[trigger] b2.swarm_connected_pair(c, d) by {
            assert(b1.pieces_at(c) && b1.pieces_at(d));
            assert(b1.swarm_connected_pair(c, d));
        }
    }
    if b2.swarm_connected() {
        assert forall|c: AxialCoords, d: AxialCoords|
            b1.pieces_at(c) && b1.pieces_at(d) implies
            #[trigger] b1.swarm_connected_pair(c, d) by {
            assert(b2.pieces_at(c) && b2.pieces_at(d));
            assert(b2.swarm_connected_pair(c, d));
        }
    }
}

/// The common-neighbor count equals the length of the filtered neighbor
/// list.
proof fn lemma_count_shared_upto_filter(board: Board, a: AxialCoords, b: AxialCoords, n: int)
    requires
        0 <= n <= 6,
    ensures
        board.count_shared_upto(a, b, n)
            == a.spec_neighbors().take(n).filter(
                |d: AxialCoords| b.spec_adjacent(d) && board.has(d),
            ).len(),
    decreases n,
{
    reveal(Seq::filter);
    let nbs = a.spec_neighbors();
    let pred = |d: AxialCoords| b.spec_adjacent(d) && board.has(d);
    if n == 0 {
        assert(nbs.take(0) =~= Seq::<AxialCoords>::empty());
    } else {
        lemma_count_shared_upto_filter(board, a, b, n - 1);
        assert(nbs.take(n).drop_last() =~= nbs.take(n - 1));
        assert(nbs.take(n).last() == nbs[n - 1]);
        assert(board.shared_at(a, b, n - 1) == pred(nbs[n - 1]));
    }
}

/// A filtered duplicate-free sequence stays duplicate-free.
proof fn lemma_filter_no_dup<A>(s: Seq<A>, pred: spec_fn(A) -> bool)
    requires
        forall|i: int, j: int| 0 <= i < j < s.len() ==> s[i] != s[j],
    ensures
        forall|i: int, j: int| 0 <= i < j < s.filter(pred).len()
            ==> s.filter(pred)[i] != s.filter(pred)[j],
    decreases s.len(),
{
    reveal(Seq::filter);
    if s.len() > 0 {
        let rest = s.drop_last();
        assert forall|i: int, j: int| 0 <= i < j < rest.len() implies rest[i] != rest[j] by {
            assert(s[i] != s[j]);
        }
        lemma_filter_no_dup(rest, pred);
        if pred(s.last()) {
            assert forall|i: int, j: int| 0 <= i < j < s.filter(pred).len() implies
                s.filter(pred)[i] != s.filter(pred)[j] by {
                if j < s.filter(pred).len() - 1 {
                    assert(rest.filter(pred)[i] != rest.filter(pred)[j]);
                } else {
                    assert(s.filter(pred)[i] == rest.filter(pred)[i]);
                    rest.lemma_filter_contains_rev(pred, rest.filter(pred)[i]);
                    let k = choose|k: int| 0 <= k < rest.len() && rest[k] == rest.filter(pred)[i];
                    assert(s[k] == rest[k] && s.last() == s[s.len() - 1]);
                }
            }
        }
    }
}

/// The set of on-board common neighbors of two cells.
spec fn shared_set(board: Board, a: AxialCoords, b: AxialCoords) -> Set<AxialCoords> {
    Set::new(
        |d: AxialCoords| a.spec_adjacent(d) && b.spec_adjacent(d) && board.has(d),
    )
}

/// The common-neighbor count equals the cardinality of the (symmetric)
/// common-neighbor set.
proof fn lemma_count_shared_is_card(board: Board, a: AxialCoords, b: AxialCoords)
    requires
        a.in_range(),
    ensures
        board.count_shared(a, b) == shared_set(board, a, b).len(),
        shared_set(board, a, b).finite(),
{
    broadcast use vstd::set::group_set_axioms;
    broadcast use vstd::seq_lib::group_filter_ensures;
    let nbs = a.spec_neighbors();
    let pred = |d: AxialCoords| b.spec_adjacent(d) && board.has(d);
    let filtered = nbs.filter(pred);
    lemma_count_shared_upto_filter(board, a, b, 6);
    assert(nbs.take(6) =~= nbs);
    crate::game::board::lemma_neighbors_distinct(a);
    lemma_filter_no_dup(nbs, pred);
    filtered.unique_seq_to_set();
    assert(filtered.to_set() =~= shared_set(board, a, b)) by {
        reveal(AxialCoords::spec_adjacent);
        assert forall|d: AxialCoords| filtered.to_set().contains(d) implies
            shared_set(board, a, b).contains(d) by {
            reveal(AxialCoords::spec_adjacent);
            assert(filtered.contains(d));
            nbs.lemma_filter_contains_rev(pred, d);
            assert(nbs.contains(d));
            let k = choose|k: int| 0 <= k < filtered.len() && filtered[k] == d;
            assert(pred(filtered[k]));
        }
        assert forall|d: AxialCoords| shared_set(board, a, b).contains(d) implies
            filtered.to_set().contains(d) by {
            reveal(AxialCoords::spec_adjacent);
            assert(a.spec_adjacent(d) && b.spec_adjacent(d) && board.has(d));
            assert(a.spec_neighbors().contains(d));
            let i = choose|i: int| 0 <= i < nbs.len() && nbs[i] == d;
            assert(pred(nbs[i]));
            nbs.lemma_filter_contains(pred, i);
            assert(filtered.contains(d));
        }
    }
}

/// The sliding rule does not depend on the direction of the slide.
pub proof fn lemma_can_move_symm(
    board: Board,
    exception: Option<AxialCoords>,
    a: AxialCoords,
    b: AxialCoords,
)
    requires
        a.in_range(),
        b.in_range(),
    ensures
        board.can_move_between_spec(exception, a, b)
            == board.can_move_between_spec(exception, b, a),
{
    lemma_count_shared_is_card(board, a, b);
    lemma_count_shared_is_card(board, b, a);
    assert(shared_set(board, a, b) =~= shared_set(board, b, a));
    assert forall|i: int| 0 <= i < 6 && #[trigger] board.shared_at(a, b, i) implies
        exists|j: int| 0 <= j < 6 && #[trigger] board.shared_at(b, a, j)
            && b.spec_neighbors()[j] == a.spec_neighbors()[i] by {
        reveal(AxialCoords::spec_adjacent);
        let d = a.spec_neighbors()[i];
        let j = choose|j: int| 0 <= j < b.spec_neighbors().len() && b.spec_neighbors()[j] == d;
        assert(a.spec_adjacent(d));
        assert(board.shared_at(b, a, j));
    }
    assert forall|j: int| 0 <= j < 6 && #[trigger] board.shared_at(b, a, j) implies
        exists|i: int| 0 <= i < 6 && #[trigger] board.shared_at(a, b, i)
            && a.spec_neighbors()[i] == b.spec_neighbors()[j] by {
        reveal(AxialCoords::spec_adjacent);
        let d = b.spec_neighbors()[j];
        let i = choose|i: int| 0 <= i < a.spec_neighbors().len() && a.spec_neighbors()[i] == d;
        assert(b.spec_adjacent(d));
        assert(board.shared_at(a, b, i));
    }
}

/// A legal crawl step between two empty cells can be walked back.
proof fn lemma_step_symm(board: Board, c: AxialCoords, d: AxialCoords)
    requires
        board.wf(),
        board.step_ok(None, c, d),
        board.empty_at(c),
    ensures
        board.step_ok(None, d, c),
{
    let i = board.fields.spec_index_of(c);
    let j = board.fields.spec_index_of(d);
    assert(coords_ok(board.s()[i].acoords()));
    assert(coords_ok(board.s()[j].acoords()));
    crate::util::lemma_adjacent_symm(c, d);
    lemma_can_move_symm(board, None, c, d);
}

/// Crawling along the swarm's boundary is symmetric between two cells of
/// equal occupancy. (With one cell empty and one occupied it is not: a
/// crawl may start on an occupied cell but can only end on an empty one.)
pub proof fn lemma_boundary_connected_symm(board: Board, a: AxialCoords, b: AxialCoords)
    requires
        board.wf(),
        board.empty_at(a) == board.empty_at(b),
    ensures
        board.boundary_connected(None, a, b) == board.boundary_connected(None, b, a),
{
    if a == b {
    } else if !board.empty_at(a) {
        assert(!board.boundary_connected(None, a, b)) by {
            if board.boundary_connected(None, a, b) {
                let p = choose|p: Seq<AxialCoords>|
                    #[trigger] board.crawl_path_ok(None, p) && p.len() >= 1 && p[0] == a
                        && p.last() == b;
                if p.len() == 1 {
                    assert(a == b);
                } else {
                    assert(board.step_ok(None, p[p.len() - 2], p.last()));
                    assert(board.empty_at(b));
                }
                assert(false);
            }
        }
        assert(!board.boundary_connected(None, b, a)) by {
            if board.boundary_connected(None, b, a) {
                let p = choose|p: Seq<AxialCoords>|
                    #[trigger] board.crawl_path_ok(None, p) && p.len() >= 1 && p[0] == b
                        && p.last() == a;
                if p.len() == 1 {
                    assert(a == b);
                } else {
                    assert(board.step_ok(None, p[p.len() - 2], p.last()));
                    assert(board.empty_at(a));
                }
                assert(false);
            }
        }
    } else {
        if board.boundary_connected(None, a, b) {
            lemma_boundary_reverse(board, a, b);
        }
        if board.boundary_connected(None, b, a) {
            lemma_boundary_reverse(board, b, a);
        }
    }
}

/// Reverses a boundary crawl between two empty cells.
proof fn lemma_boundary_reverse(board: Board, a: AxialCoords, b: AxialCoords)
    requires
        board.wf(),
        board.empty_at(a),
        board.empty_at(b),
        board.boundary_connected(None, a, b),
    ensures
        board.boundary_connected(None, b, a),
{
    let p = choose|p: Seq<AxialCoords>|
        #[trigger] board.crawl_path_ok(None, p) && p.len() >= 1 && p[0] == a && p.last() == b;
    let n = p.len() as int;
    assert forall|i: int| 0 <= i < n implies board.empty_at(#[trigger] p[i]) by {
        if i == 0 {
        } else {
            assert(board.step_ok(None, p[i - 1], p[i]));
        }
    }
    let q = p.reverse();
    assert(board.crawl_path_ok(None, q)) by {
        assert forall|i: int| 0 <= i < q.len() - 1 implies
            board.step_ok(None, #[trigger] q[i], q[i + 1]) by {
            assert(q[i] == p[n - 1 - i] && q[i + 1] == p[n - 2 - i]);
            assert(board.step_ok(None, p[n - 2 - i], p[n - 1 - i]));
            assert(board.empty_at(p[n - 2 - i]));
            lemma_step_symm(board, p[n - 2 - i], p[n - 1 - i]);
        }
    }
    assert(q.len() >= 1 && q[0] == b && q.last() == a);
    assert(board.has(b));
}

/// A board without any pieces has a connected swarm.
pub proof fn lemma_empty_swarm_connected(board: Board)
    requires
        forall|c: AxialCoords| !board.pieces_at(c),
    ensures
        board.swarm_connected(),
{
}

/// Every swarm path that starts in a part of the swarm that no adjacency
/// leaves stays in that part.
proof fn lemma_swarm_path_stays(
    board: Board,
    part: spec_fn(AxialCoords) -> bool,
    p: Seq<AxialCoords>,
)
    requires
        forall|x: AxialCoords, y: AxialCoords|
            board.pieces_at(x) && board.pieces_at(y) && #[trigger] x.spec_adjacent(y) && part(x)
                ==> part(y),
        p.len() >= 1,
        board.swarm_path_ok(p),
        part(p[0]),
    ensures
        part(p.last()),
    decreases p.len(),
{
    if p.len() > 1 {
        let q = p.drop_last();
        assert(board.swarm_path_ok(q)) by {
            assert forall|i: int| 0 <= i < q.len() implies
                board.pieces_at(#[trigger] q[i]) by {
                assert(board.pieces_at(p[i]));
            }
            assert forall|i: int| 0 <= i < q.len() - 1 implies
                (#[trigger] q[i]).spec_adjacent(q[i + 1]) by {
                assert(p[i].spec_adjacent(p[i + 1]));
            }
        }
        lemma_swarm_path_stays(board, part, q);
        assert(p[p.len() - 2].spec_adjacent(p.last()));
        assert(board.pieces_at(p[p.len() - 2]) && board.pieces_at(p.last()));
    }
}

/// When the cells holding pieces split into two clusters that share no
/// adjacency, the swarm is not connected.
pub proof fn lemma_separated_swarm_disconnected(
    board: Board,
    part: spec_fn(AxialCoords) -> bool,
    c: AxialCoords,
    d: AxialCoords,
)
    requires
        board.pieces_at(c),
        board.pieces_at(d),
        part(c),
        !part(d),
        forall|x: AxialCoords, y: AxialCoords|
            board.pieces_at(x) && board.pieces_at(y) && #[trigger] x.spec_adjacent(y) && part(x)
                ==> part(y),
    ensures
        !board.swarm_connected(),
{
    if board.swarm_connected() {
        assert(board.swarm_connected_pair(c, d));
        let p = choose|p: Seq<AxialCoords>|
            #[trigger] board.swarm_path_ok(p) && p.len() >= 1 && p[0] == c && p.last() == d;
        lemma_swarm_path_stays(board, part, p);
        assert(false);
    }
}

/// The number of fields among the first `n` that hold pieces.
pub open spec fn count_piece_cells(board: Board, n: int) -> int
    decreases n,
{
    if n <= 0 {
        0
    } else {
        count_piece_cells(board, n - 1) + if board.s()[n - 1].pieces@.len() > 0 {
            1int
        } else {
            0int
        }
    }
}

/// If a duplicate-free collection of cells holding pieces has as many
/// members as the board has such cells, it holds them all; otherwise one
/// is missing.
proof fn lemma_piece_cells_complete(board: Board, order: Seq<AxialCoords>, total: int)
    requires
        board.wf(),
        total == count_piece_cells(board, board.s().len() as int),
        forall|k1: int, k2: int| 0 <= k1 < k2 < order.len() ==> order[k1] != order[k2],
        forall|k: int| 0 <= k < order.len() ==> board.pieces_at(#[trigger] order[k]),
    ensures
        order.len() == total ==> forall|c: AxialCoords| board.pieces_at(c) ==> order.contains(c),
        order.len() != total ==> exists|c: AxialCoords| board.pieces_at(c) && !order.contains(c),
{
    let n = board.s().len() as int;
    let pred = |c: AxialCoords| board.fields.spec_index_of(c) < n;
    if order.len() == total {
        if exists|c: AxialCoords| board.pieces_at(c) && !order.contains(c) {
            let c = choose|c: AxialCoords| board.pieces_at(c) && !order.contains(c);
            let order2 = order.push(c);
            assert forall|k1: int, k2: int| 0 <= k1 < k2 < order2.len() implies
                order2[k1] != order2[k2] by {
                if k2 == order.len() {
                    if order2[k1] == c {
                        assert(order.contains(order[k1]));
                    }
                }
            }
            assert forall|k: int| 0 <= k < order2.len() implies
                board.pieces_at(#[trigger] order2[k]) by {
                if k < order.len() {
                    assert(board.pieces_at(order[k]));
                }
            }
            lemma_piece_cells_counted(board, order2, n);
            assert forall|k: int| 0 <= k < order2.len() implies pred(#[trigger] order2[k]) by {
                assert(board.pieces_at(order2[k]));
            }
            lemma_filter_all(order2, pred);
            assert(false);
        }
    } else {
        if forall|c: AxialCoords| board.pieces_at(c) ==> #[trigger] order.contains(c) {
            assert forall|k: int| 0 <= k < order.len() implies
                board.has(#[trigger] order[k]) by {
                assert(board.pieces_at(order[k]));
            }
            lemma_piece_cells_counted(board, order, n);
            lemma_piece_cells_lower(board, order, n);
            assert forall|k: int| 0 <= k < order.len() implies pred(#[trigger] order[k]) by {
                assert(board.pieces_at(order[k]));
            }
            lemma_filter_all(order, pred);
            assert(false);
        }
    }
}

/// Counting bound: a duplicate-free set of piece-holding cells has at most
/// `count_piece_cells` members among the first `n` board fields.
proof fn lemma_piece_cells_counted(board: Board, order: Seq<AxialCoords>, n: int)
    requires
        board.wf(),
        0 <= n <= board.s().len(),
        forall|k1: int, k2: int| 0 <= k1 < k2 < order.len() ==> order[k1] != order[k2],
        forall|k: int| 0 <= k < order.len() ==> board.pieces_at(#[trigger] order[k]),
    ensures
        order.filter(|c: AxialCoords| board.fields.spec_index_of(c) < n).len()
            <= count_piece_cells(board, n),
    decreases n,
{
    let pred = |c: AxialCoords| board.fields.spec_index_of(c) < n;
    if n == 0 {
        assert forall|k: int| 0 <= k < order.len() implies
            !pred(#[trigger] order[k]) by {
            assert(board.has(order[k]));
        }
        lemma_filter_none(order, pred);
    } else {
        let pred_prev = |c: AxialCoords| board.fields.spec_index_of(c) < n - 1;
        lemma_piece_cells_counted(board, order, n - 1);
        let cn = board.s()[n - 1].acoords();
        if board.s()[n - 1].pieces@.len() > 0 {
            lemma_filter_step_le(board, order, n);
        } else {
            assert forall|k: int| 0 <= k < order.len() implies
                (pred(#[trigger] order[k]) == pred_prev(order[k])) by {
                if board.fields.spec_index_of(order[k]) == n - 1 {
                    assert(board.at(order[k]) == board.s()[n - 1]);
                    assert(board.pieces_at(order[k]));
                    assert(false);
                }
            }
            lemma_filter_same(order, pred, pred_prev);
        }
    }
}

/// Filtering by a predicate no element satisfies gives the empty sequence.
proof fn lemma_filter_none<A>(s: Seq<A>, pred: spec_fn(A) -> bool)
    requires
        forall|k: int| 0 <= k < s.len() ==> !pred(#[trigger] s[k]),
    ensures
        s.filter(pred).len() == 0,
    decreases s.len(),
{
    reveal(Seq::filter);
    if s.len() > 0 {
        lemma_filter_none(s.drop_last(), pred);
    }
}

/// Two pointwise-equal predicates filter to the same sequence.
proof fn lemma_filter_same<A>(s: Seq<A>, p: spec_fn(A) -> bool, q: spec_fn(A) -> bool)
    requires
        forall|k: int| 0 <= k < s.len() ==> p(#[trigger] s[k]) == q(s[k]),
    ensures
        s.filter(p) == s.filter(q),
    decreases s.len(),
{
    reveal(Seq::filter);
    if s.len() > 0 {
        lemma_filter_same(s.drop_last(), p, q);
    }
}

/// Widening the index bound by one admits at most one more member of a
/// duplicate-free sequence of on-board cells.
proof fn lemma_filter_step_le(board: Board, order: Seq<AxialCoords>, n: int)
    requires
        board.wf(),
        1 <= n <= board.s().len(),
        forall|k1: int, k2: int| 0 <= k1 < k2 < order.len() ==> order[k1] != order[k2],
        forall|k: int| 0 <= k < order.len() ==> board.has(#[trigger] order[k]),
    ensures
        order.filter(|c: AxialCoords| board.fields.spec_index_of(c) < n).len()
            <= order.filter(|c: AxialCoords| board.fields.spec_index_of(c) < n - 1).len() + 1,
    decreases order.len(),
{
    reveal(Seq::filter);
    let pred = |c: AxialCoords| board.fields.spec_index_of(c) < n;
    let pred_prev = |c: AxialCoords| board.fields.spec_index_of(c) < n - 1;
    if order.len() == 0 {
    } else {
        let rest = order.drop_last();
        let last = order.last();
        if board.fields.spec_index_of(last) == n - 1 {
            assert forall|k: int| 0 <= k < rest.len() implies
                (pred(#[trigger] rest[k]) == pred_prev(rest[k])) by {
                if board.fields.spec_index_of(rest[k]) == n - 1 {
                    assert(board.s()[n - 1].acoords() == rest[k]);
                    assert(board.s()[n - 1].acoords() == last);
                    assert(rest[k] == order[k] && last == order[order.len() - 1]);
                    assert(false);
                }
            }
            lemma_filter_same(rest, pred, pred_prev);
            assert(rest.filter(pred_prev).len() <= order.filter(pred_prev).len()) by {
                lemma_filter_drop_last_le(order, pred_prev);
            }
        } else {
            lemma_filter_step_le(board, rest, n);
            assert(order.filter(pred).len() <= rest.filter(pred).len() + 1);
            assert(rest.filter(pred_prev).len() <= order.filter(pred_prev).len()) by {
                lemma_filter_drop_last_le(order, pred_prev);
            }
        }
    }
}

/// Filtering by a predicate every element satisfies keeps the sequence.
proof fn lemma_filter_all<A>(s: Seq<A>, pred: spec_fn(A) -> bool)
    requires
        forall|k: int| 0 <= k < s.len() ==> pred(#[trigger] s[k]),
    ensures
        s.filter(pred) == s,
    decreases s.len(),
{
    reveal(Seq::filter);
    if s.len() > 0 {
        lemma_filter_all(s.drop_last(), pred);
        assert(s.drop_last().push(s.last()) =~= s);
    }
}

/// Dropping the last element cannot grow a filtered sequence.
proof fn lemma_filter_drop_last_le<A>(s: Seq<A>, pred: spec_fn(A) -> bool)
    requires
        s.len() >= 1,
    ensures
        s.drop_last().filter(pred).len() <= s.filter(pred).len(),
{
    reveal(Seq::filter);
}

/// Helper for the lower bound: among the first `n` fields there are
/// `count_piece_cells` distinct piece-holding positions, all contained in
/// `order`, whose indices are below `n`.
proof fn lemma_piece_cells_lower(board: Board, order: Seq<AxialCoords>, n: int)
    requires
        board.wf(),
        0 <= n <= board.s().len(),
        forall|k1: int, k2: int| 0 <= k1 < k2 < order.len() ==> order[k1] != order[k2],
        forall|k: int| 0 <= k < order.len() ==> board.has(#[trigger] order[k]),
        forall|c: AxialCoords| board.pieces_at(c) ==> #[trigger] order.contains(c),
    ensures
        count_piece_cells(board, n)
            <= order.filter(|c: AxialCoords| board.fields.spec_index_of(c) < n).len(),
    decreases n,
{
    let pred = |c: AxialCoords| board.fields.spec_index_of(c) < n;
    if n == 0 {
    } else {
        let pred_prev = |c: AxialCoords| board.fields.spec_index_of(c) < n - 1;
        lemma_piece_cells_lower(board, order, n - 1);
        let cn = board.s()[n - 1].acoords();
        if board.s()[n - 1].pieces@.len() > 0 {
            assert(board.pieces_at(cn)) by {
                assert(board.fields.spec_index_of(cn) == n - 1);
            }
            assert(order.contains(cn));
            lemma_filter_gain(board, order, n);
        } else {
            assert forall|k: int| 0 <= k < order.len()
                && pred_prev(#[trigger] order[k]) implies pred(order[k]) by {}
            lemma_filter_mono(order, pred_prev, pred);
        }
    }
}

/// A pointwise weaker predicate filters to at most as many elements.
proof fn lemma_filter_mono<A>(s: Seq<A>, p: spec_fn(A) -> bool, q: spec_fn(A) -> bool)
    requires
        forall|k: int| 0 <= k < s.len() && p(#[trigger] s[k]) ==> q(s[k]),
    ensures
        s.filter(p).len() <= s.filter(q).len(),
    decreases s.len(),
{
    reveal(Seq::filter);
    if s.len() > 0 {
        lemma_filter_mono(s.drop_last(), p, q);
    }
}

/// When the `n-1`-st field's position occurs in a duplicate-free sequence,
/// widening the index bound to `n` admits exactly one more member.
proof fn lemma_filter_gain(board: Board, order: Seq<AxialCoords>, n: int)
    requires
        board.wf(),
        1 <= n <= board.s().len(),
        forall|k1: int, k2: int| 0 <= k1 < k2 < order.len() ==> order[k1] != order[k2],
        forall|k: int| 0 <= k < order.len() ==> board.has(#[trigger] order[k]),
        order.contains(board.s()[n - 1].acoords()),
    ensures
        order.filter(|c: AxialCoords| board.fields.spec_index_of(c) < n).len()
            >= order.filter(|c: AxialCoords| board.fields.spec_index_of(c) < n - 1).len() + 1,
    decreases order.len(),
{
    reveal(Seq::filter);
    let pred = |c: AxialCoords| board.fields.spec_index_of(c) < n;
    let pred_prev = |c: AxialCoords| board.fields.spec_index_of(c) < n - 1;
    let cn = board.s()[n - 1].acoords();
    let rest = order.drop_last();
    let last = order.last();
    assert(board.fields.spec_index_of(cn) == n - 1);
    if last == cn {
        assert(pred(last) && !pred_prev(last));
        assert forall|k: int| 0 <= k < rest.len() implies
            (#[trigger] rest[k]) != cn by {
            assert(rest[k] == order[k] && last == order[order.len() - 1]);
        }
        lemma_filter_within(board, rest, n);
    } else {
        assert(rest.contains(cn)) by {
            let k = choose|k: int| 0 <= k < order.len() && order[k] == cn;
            assert(rest[k] == cn);
        }
        lemma_filter_gain(board, rest, n);
        if pred(last) {
            if pred_prev(last) {
            } else {
            }
        }
    }
}

/// A sequence avoiding the `n-1`-st position filters equally under the
/// bounds `n` and `n - 1`.
proof fn lemma_filter_within(board: Board, s: Seq<AxialCoords>, n: int)
    requires
        board.wf(),
        1 <= n <= board.s().len(),
        forall|k: int| 0 <= k < s.len() ==> board.has(#[trigger] s[k]),
        forall|k: int| 0 <= k < s.len() ==> (#[trigger] s[k]) != board.s()[n - 1].acoords(),
    ensures
        s.filter(|c: AxialCoords| board.fields.spec_index_of(c) < n)
            == s.filter(|c: AxialCoords| board.fields.spec_index_of(c) < n - 1),
{
    let pred = |c: AxialCoords| board.fields.spec_index_of(c) < n;
    let pred_prev = |c: AxialCoords| board.fields.spec_index_of(c) < n - 1;
    assert forall|k: int| 0 <= k < s.len() implies
        (pred(#[trigger] s[k]) == pred_prev(s[k])) by {
        if board.fields.spec_index_of(s[k]) == n - 1 {
            assert(board.s()[n - 1].acoords() == s[k]);
            assert(false);
        }
    }
    lemma_filter_same(s, pred, pred_prev);
}

/// Joining two swarm paths that share their first cell links their ends.
proof fn lemma_swarm_join(board: Board, pc: Seq<AxialCoords>, pd: Seq<AxialCoords>)
    requires
        board.wf(),
        board.swarm_path_ok(pc),
        board.swarm_path_ok(pd),
        pc.len() >= 1,
        pd.len() >= 1,
        pc[0] == pd[0],
    ensures
        board.swarm_connected_pair(pc.last(), pd.last()),
{
    let rev = pc.reverse();
    let joined = rev + pd.drop_first();
    assert(board.swarm_path_ok(joined)) by {
        assert forall|i: int| 0 <= i < joined.len() implies
            board.pieces_at(#[trigger] joined[i]) by {
            if i < rev.len() {
                assert(joined[i] == pc[pc.len() - 1 - i]);
                assert(board.pieces_at(pc[pc.len() - 1 - i]));
            } else {
                assert(joined[i] == pd[i - rev.len() + 1]);
                assert(board.pieces_at(pd[i - rev.len() + 1]));
            }
        }
        assert forall|i: int| 0 <= i < joined.len() - 1 implies
            (#[trigger] joined[i]).spec_adjacent(joined[i + 1]) by {
            if i + 1 < rev.len() {
                assert(joined[i] == pc[pc.len() - 1 - i]);
                assert(joined[i + 1] == pc[pc.len() - 2 - i]);
                assert(pc[pc.len() - 2 - i].spec_adjacent(pc[pc.len() - 1 - i]));
                lemma_adjacent_symm_board(board, pc[pc.len() - 2 - i], pc[pc.len() - 1 - i]);
            } else if i + 1 == rev.len() {
                assert(joined[i] == pc[0]);
                assert(joined[i + 1] == pd[1]);
                assert(pd[0].spec_adjacent(pd[1]));
            } else {
                assert(joined[i] == pd[i - rev.len() + 1]);
                assert(joined[i + 1] == pd[i - rev.len() + 2]);
                assert(pd[i - rev.len() + 1].spec_adjacent(pd[i - rev.len() + 2]));
            }
        }
    }
    assert(joined.len() >= 1);
    assert(joined[0] == pc.last());
    if pd.len() == 1 {
        assert(joined.last() == rev.last());
        assert(rev.last() == pc[0]);
        assert(pc[0] == pd[0] && pd[0] == pd.last());
    } else {
        assert(joined.last() == pd.last());
    }
}

/// Adjacency of two on-board cells is symmetric; cells on a well-formed
/// board are always in coordinate range.
proof fn lemma_adjacent_symm_board(board: Board, a: AxialCoords, b: AxialCoords)
    requires
        board.pieces_at(a),
        board.pieces_at(b),
        board.wf(),
        a.spec_adjacent(b),
    ensures
        b.spec_adjacent(a),
{
    let i = board.fields.spec_index_of(a);
    let j = board.fields.spec_index_of(b);
    assert(coords_ok(board.s()[i].acoords()));
    assert(coords_ok(board.s()[j].acoords()));
    crate::util::lemma_adjacent_symm(a, b);
}

} // verus!
