//! Reachability/path helpers (BFS) used for validation, exit placement, and debug metrics.
use vstd::prelude::*;

use std::collections::VecDeque;

use super::grid::{
    dir_bit, lemma_idx, lemma_step_dir, lemma_step_has_dir, lemma_walk_extend, lemma_walk_in_bounds,
    lemma_walk_pred, lemma_walk_zero, nbr, Cell, GridView,
};
use super::Maze;
use super::Walls;
use crate::counting::{index_set, lemma_index_set_bounds, lemma_index_set_mark, lemma_index_set_strict};

verus! {

/// The cell that a pair of indices names.
pub open spec fn cell_of(p: (usize, usize)) -> Cell {
    (p.0 as int, p.1 as int)
}

/// `dist` gives, for every cell, the length of a shortest walk from `s`, and `usize::MAX`
/// for every cell that no walk from `s` reaches.
pub open spec fn exact_distances(g: GridView, s: Cell, dist: Seq<usize>) -> bool {
    &&& dist.len() == g.width * g.height
    &&& forall|c: Cell|
        #![trigger g.idx(c)]
        g.in_bounds(c) ==> {
            &&& dist[g.idx(c)] != usize::MAX ==> g.shortest(s, c, dist[g.idx(c)] as nat)
            &&& dist[g.idx(c)] == usize::MAX ==> !g.reachable(s, c)
        }
}

pub open spec fn finite_pred() -> spec_fn(usize) -> bool {
    |x: usize| x != usize::MAX
}

spec fn cells_of(q: Seq<(usize, usize)>) -> Seq<Cell> {
    q.map_values(|p: (usize, usize)| cell_of(p))
}

spec fn dv(g: GridView, dist: Seq<usize>, c: Cell) -> usize {
    dist[g.idx(c)]
}

spec fn fin(g: GridView, dist: Seq<usize>, c: Cell) -> bool {
    dist[g.idx(c)] != usize::MAX
}

/// Every step out of `c` leads to a discovered cell at most one further away.
spec fn closed(g: GridView, dist: Seq<usize>, c: Cell) -> bool {
    forall|b: Cell| #[trigger] g.step(c, b) ==> fin(g, dist, b) && dv(g, dist, b) <= dv(g, dist, c) + 1
}

/// The state of the search: `pend` is the queue of discovered cells still to expand, in
/// nondecreasing distance order spanning at most two levels; every discovered cell is
/// pending or closed, carries the length of a real walk, and the number of discovered cells
/// bounds every distance.
spec fn bfs_inv(g: GridView, s: Cell, dist: Seq<usize>, pend: Seq<Cell>) -> bool {
    &&& g.wf()
    &&& dist.len() == g.width * g.height
    &&& g.width * g.height <= usize::MAX
    &&& g.in_bounds(s)
    &&& dv(g, dist, s) == 0
    &&& forall|i: int|
        0 <= i < pend.len() ==> g.in_bounds(#[trigger] pend[i]) && fin(g, dist, pend[i])
    &&& forall|i: int, j: int|
        0 <= i <= j < pend.len() ==> dv(g, dist, #[trigger] pend[i]) <= dv(
            g,
            dist,
            #[trigger] pend[j],
        )
    &&& forall|i: int, j: int|
        0 <= i < pend.len() && 0 <= j < pend.len() ==> dv(g, dist, #[trigger] pend[j]) <= dv(
            g,
            dist,
            #[trigger] pend[i],
        ) + 1
    &&& pend.len() > 0 ==> forall|c: Cell|
        #![trigger g.idx(c)]
        g.in_bounds(c) && fin(g, dist, c) ==> dv(g, dist, c) <= dv(g, dist, pend[0]) + 1
    &&& forall|c: Cell|
        #![trigger g.idx(c)]
        g.in_bounds(c) && fin(g, dist, c) ==> pend.contains(c) || closed(g, dist, c)
    &&& forall|c: Cell|
        #![trigger g.idx(c)]
        g.in_bounds(c) && fin(g, dist, c) ==> g.walk(s, c, dv(g, dist, c) as nat)
    &&& forall|c: Cell|
        #![trigger g.idx(c)]
        g.in_bounds(c) && fin(g, dist, c) ==> dv(g, dist, c) < index_set(
            dist,
            finite_pred(),
        ).len()
}

/// Updating one undiscovered cell leaves every discovered cell's distance unchanged.
proof fn lemma_update_keeps(g: GridView, dist: Seq<usize>, v: Cell, val: usize, c: Cell)
    requires
        g.in_bounds(v),
        g.in_bounds(c),
        dist.len() == g.width * g.height,
        !fin(g, dist, v),
        fin(g, dist, c),
    ensures
        dv(g, dist.update(g.idx(v), val), c) == dv(g, dist, c),
{
    lemma_idx(g, v, c);
    lemma_idx(g, c, c);
}

/// The search state right after discovering the start cell.
proof fn lemma_bfs_init(g: GridView, s: Cell, dist0: Seq<usize>)
    requires
        g.wf(),
        g.in_bounds(s),
        dist0.len() == g.width * g.height,
        g.width * g.height <= usize::MAX,
        forall|i: int| 0 <= i < dist0.len() ==> dist0[i] == usize::MAX,
    ensures
        bfs_inv(g, s, dist0.update(g.idx(s), 0), seq![s]),
{
    let dist = dist0.update(g.idx(s), 0);
    lemma_idx(g, s, s);
    assert forall|c: Cell| g.in_bounds(c) && fin(g, dist, c) implies c == s by {
        lemma_idx(g, c, s);
    }
    assert(index_set(dist0, finite_pred()) =~= Set::empty());
    lemma_index_set_mark(dist0, finite_pred(), g.idx(s), 0);
    lemma_walk_zero(g, s);
    assert(seq![s][0] == s);
    assert(seq![s].contains(s));
}

/// Discovering `v` from the front cell `u`: the state is kept with `v` queued at distance
/// one more than `u`, and that distance is below `usize::MAX`.
proof fn lemma_bfs_relax(g: GridView, s: Cell, dist: Seq<usize>, pend: Seq<Cell>, v: Cell)
    requires
        bfs_inv(g, s, dist, pend),
        pend.len() > 0,
        g.step(pend[0], v),
        !fin(g, dist, v),
    ensures
        dv(g, dist, pend[0]) + 1 < usize::MAX,
        bfs_inv(
            g,
            s,
            dist.update(g.idx(v), (dv(g, dist, pend[0]) + 1) as usize),
            pend.push(v),
        ),
        index_set(dist.update(g.idx(v), (dv(g, dist, pend[0]) + 1) as usize), finite_pred()).len()
            == index_set(dist, finite_pred()).len() + 1,
{
    let u = pend[0];
    let d = dv(g, dist, u);
    lemma_idx(g, v, v);
    lemma_index_set_strict(dist, finite_pred(), g.idx(v));
    assert(g.in_bounds(u) && fin(g, dist, u));
    assert(d < index_set(dist, finite_pred()).len());
    let nd = (d + 1) as usize;
    assert(finite_pred()(nd));
    let dist2 = dist.update(g.idx(v), nd);
    let pend2 = pend.push(v);
    lemma_index_set_mark(dist, finite_pred(), g.idx(v), nd);
    assert(dv(g, dist2, v) == nd);
    // distances of discovered cells are unchanged
    assert forall|c: Cell| g.in_bounds(c) && fin(g, dist, c) implies dv(g, dist2, c) == dv(
        g,
        dist,
        c,
    ) && fin(g, dist2, c) by {
        lemma_update_keeps(g, dist, v, nd, c);
    }
    assert forall|c: Cell| g.in_bounds(c) && fin(g, dist2, c) implies c == v || fin(
        g,
        dist,
        c,
    ) by {
        lemma_idx(g, c, v);
    }
    assert(dv(g, dist2, s) == 0);
    // queue facts
    assert forall|i: int| 0 <= i < pend2.len() implies g.in_bounds(#[trigger] pend2[i]) && fin(
        g,
        dist2,
        pend2[i],
    ) by {
        if i < pend.len() {
            assert(pend2[i] == pend[i]);
            lemma_update_keeps(g, dist, v, nd, pend[i]);
        } else {
            assert(pend2[i] == v);
        }
    }
    assert forall|i: int| 0 <= i < pend.len() implies d <= dv(g, dist, #[trigger] pend[i]) <= d
        + 1 by {
        assert(pend[0] == u);
    }
    assert forall|i: int, j: int| 0 <= i <= j < pend2.len() implies dv(
        g,
        dist2,
        #[trigger] pend2[i],
    ) <= dv(g, dist2, #[trigger] pend2[j]) by {
        if j < pend.len() {
            assert(pend2[i] == pend[i] && pend2[j] == pend[j]);
        } else if i < pend.len() {
            assert(pend2[i] == pend[i]);
        }
    }
    assert forall|i: int, j: int| 0 <= i < pend2.len() && 0 <= j < pend2.len() implies dv(
        g,
        dist2,
        #[trigger] pend2[j],
    ) <= dv(g, dist2, #[trigger] pend2[i]) + 1 by {
        if i < pend.len() {
            assert(pend2[i] == pend[i]);
        }
        if j < pend.len() {
            assert(pend2[j] == pend[j]);
        }
    }
    assert(pend2[0] == u);
    assert forall|c: Cell| #![trigger g.idx(c)] g.in_bounds(c) && fin(g, dist2, c) implies dv(
        g,
        dist2,
        c,
    ) <= dv(g, dist2, pend2[0]) + 1 by {
        if c != v {
            assert(fin(g, dist, c));
        }
    }
    assert forall|c: Cell| #![trigger g.idx(c)] g.in_bounds(c) && fin(g, dist2, c) implies pend2.contains(
        c,
    ) || closed(g, dist2, c) by {
        if c == v {
            assert(pend2[pend.len() as int] == v);
        } else {
            assert(fin(g, dist, c));
            if pend.contains(c) {
                let i = choose|i: int| 0 <= i < pend.len() && pend[i] == c;
                assert(pend2[i] == c);
            } else {
                assert(closed(g, dist, c));
                assert forall|b: Cell| #[trigger] g.step(c, b) implies fin(g, dist2, b) && dv(
                    g,
                    dist2,
                    b,
                ) <= dv(g, dist2, c) + 1 by {
                    assert(fin(g, dist, b));
                }
            }
        }
    }
    assert forall|c: Cell| #![trigger g.idx(c)] g.in_bounds(c) && fin(g, dist2, c) implies g.walk(
        s,
        c,
        dv(g, dist2, c) as nat,
    ) by {
        if c == v {
            assert(g.walk(s, u, d as nat));
            lemma_walk_extend(g, s, u, v, d as nat);
        } else {
            assert(fin(g, dist, c));
        }
    }
    assert forall|c: Cell| #![trigger g.idx(c)] g.in_bounds(c) && fin(g, dist2, c) implies dv(
        g,
        dist2,
        c,
    ) < index_set(dist2, finite_pred()).len() by {
        if c != v {
            assert(fin(g, dist, c));
        }
    }
}

/// Once every step out of the front cell leads to a discovered cell, the front can leave
/// the queue.
proof fn lemma_bfs_pop(g: GridView, s: Cell, dist: Seq<usize>, pend: Seq<Cell>)
    requires
        bfs_inv(g, s, dist, pend),
        pend.len() > 0,
        closed(g, dist, pend[0]),
    ensures
        bfs_inv(g, s, dist, pend.drop_first()),
{
    let p2 = pend.drop_first();
    assert forall|i: int| 0 <= i < p2.len() implies g.in_bounds(#[trigger] p2[i]) && fin(
        g,
        dist,
        p2[i],
    ) by {
        assert(p2[i] == pend[i + 1]);
    }
    assert forall|i: int, j: int| 0 <= i <= j < p2.len() implies dv(
        g,
        dist,
        #[trigger] p2[i],
    ) <= dv(g, dist, #[trigger] p2[j]) by {
        assert(p2[i] == pend[i + 1] && p2[j] == pend[j + 1]);
    }
    assert forall|i: int, j: int| 0 <= i < p2.len() && 0 <= j < p2.len() implies dv(
        g,
        dist,
        #[trigger] p2[j],
    ) <= dv(g, dist, #[trigger] p2[i]) + 1 by {
        assert(p2[i] == pend[i + 1] && p2[j] == pend[j + 1]);
    }
    if p2.len() > 0 {
        assert(p2[0] == pend[1]);
        assert(dv(g, dist, pend[0]) <= dv(g, dist, pend[1]));
    }
    assert forall|c: Cell| #![trigger g.idx(c)] g.in_bounds(c) && fin(g, dist, c) implies p2.contains(
        c,
    ) || closed(g, dist, c) by {
        if pend.contains(c) && c != pend[0] {
            let i = choose|i: int| 0 <= i < pend.len() && pend[i] == c;
            assert(p2[i - 1] == c);
        }
    }
}

/// From the state of the search: every walk from the start either ends at a discovered cell
/// no further than its length, or passes through a pending cell from which the rest of the
/// walk takes `m` moves, that cell's distance plus `m` being at most the walk's length.
proof fn lemma_bfs_frontier(
    g: GridView,
    s: Cell,
    dist: Seq<usize>,
    pend: Seq<Cell>,
    v: Cell,
    k: nat,
)
    requires
        bfs_inv(g, s, dist, pend),
        g.walk(s, v, k),
    ensures
        (fin(g, dist, v) && dv(g, dist, v) <= k) || exists|c: Cell, m: nat|
            #[trigger] pend.contains(c) && m <= k && dv(g, dist, c) + m <= k && #[trigger] g.walk(
                c,
                v,
                m,
            ),
    decreases k,
{
    lemma_walk_in_bounds(g, s, v, k);
    if k == 0 {
        assert(g.idx(v) == g.idx(s));
    } else {
        let u = lemma_walk_pred(g, s, v, k);
        lemma_bfs_frontier(g, s, dist, pend, u, (k - 1) as nat);
        lemma_walk_in_bounds(g, s, u, (k - 1) as nat);
        if fin(g, dist, u) && dv(g, dist, u) <= (k - 1) as nat {
            assert(g.idx(u) == g.idx(u));
            if pend.contains(u) {
                lemma_walk_zero(g, u);
                lemma_walk_extend(g, u, u, v, 0);
                assert(pend.contains(u) && 1 <= k && dv(g, dist, u) + 1 <= k && g.walk(u, v, 1));
            } else {
                assert(closed(g, dist, u));
                assert(g.step(u, v));
            }
        } else {
            let (c, m) = choose|c: Cell, m: nat|
                #[trigger] pend.contains(c) && m <= (k - 1) as nat && dv(g, dist, c) + m <= (k
                    - 1) as nat && #[trigger] g.walk(c, u, m);
            lemma_walk_extend(g, c, u, v, m);
            assert(pend.contains(c) && m + 1 <= k && dv(g, dist, c) + (m + 1) <= k && g.walk(
                c,
                v,
                m + 1,
            ));
        }
    }
}

/// With nothing left to expand, the discovered distances are exact.
proof fn lemma_bfs_complete(g: GridView, s: Cell, dist: Seq<usize>, pend: Seq<Cell>)
    requires
        bfs_inv(g, s, dist, pend),
        pend.len() == 0,
    ensures
        exact_distances(g, s, dist),
{
    assert forall|c: Cell| #![trigger g.idx(c)] g.in_bounds(c) implies {
        &&& dist[g.idx(c)] != usize::MAX ==> g.shortest(s, c, dist[g.idx(c)] as nat)
        &&& dist[g.idx(c)] == usize::MAX ==> !g.reachable(s, c)
    } by {
        if fin(g, dist, c) {
            assert forall|j: nat| j < dist[g.idx(c)] implies !#[trigger] g.walk(s, c, j) by {
                if g.walk(s, c, j) {
                    lemma_bfs_frontier(g, s, dist, pend, c, j);
                }
            }
        } else {
            if g.reachable(s, c) {
                let k = choose|k: nat| #[trigger] g.walk(s, c, k);
                lemma_bfs_frontier(g, s, dist, pend, c, k);
            }
        }
    }
}

/// A cell first discovered from the front cell at distance `d` has no walk of `d` moves or
/// fewer.
proof fn lemma_bfs_found(g: GridView, s: Cell, dist: Seq<usize>, pend: Seq<Cell>, v: Cell)
    requires
        bfs_inv(g, s, dist, pend),
        pend.len() > 0,
        g.in_bounds(v),
        !fin(g, dist, v),
    ensures
        forall|j: nat| j <= dv(g, dist, pend[0]) ==> !#[trigger] g.walk(s, v, j),
{
    assert forall|j: nat| j <= dv(g, dist, pend[0]) implies !#[trigger] g.walk(s, v, j) by {
        if g.walk(s, v, j) {
            lemma_bfs_frontier(g, s, dist, pend, v, j);
            if !(fin(g, dist, v) && dv(g, dist, v) <= j) {
                let (c, m) = choose|c: Cell, m: nat|
                    #[trigger] pend.contains(c) && m <= j && dv(g, dist, c) + m <= j
                        && #[trigger] g.walk(c, v, m);
                let i = choose|i: int| 0 <= i < pend.len() && pend[i] == c;
                assert(dv(g, dist, pend[0]) <= dv(g, dist, pend[i]));
                assert(m == 0);
                lemma_walk_in_bounds(g, c, v, m);
                assert(fin(g, dist, pend[i]));
            }
        }
    }
}

/// A start outside the grid reaches nothing.
proof fn lemma_outside_start(g: GridView, s: Cell, dist: Seq<usize>)
    requires
        !g.in_bounds(s),
        dist.len() == g.width * g.height,
        forall|i: int| 0 <= i < dist.len() ==> dist[i] == usize::MAX,
    ensures
        exact_distances(g, s, dist),
{
    assert forall|c: Cell| #![trigger g.idx(c)] g.in_bounds(c) implies {
        &&& dist[g.idx(c)] != usize::MAX ==> g.shortest(s, c, dist[g.idx(c)] as nat)
        &&& dist[g.idx(c)] == usize::MAX ==> !g.reachable(s, c)
    } by {
        lemma_idx(g, c, c);
        if g.reachable(s, c) {
            let k = choose|k: nat| #[trigger] g.walk(s, c, k);
            lemma_walk_in_bounds(g, s, c, k);
        }
    }
}

/// The neighbour of `u` in direction `dir` when the wall bits `bits` of `u` leave that side
/// open and the neighbour lies in the grid.
fn open_neighbor(bits: u8, u: (usize, usize), w: usize, h: usize, dir: usize) -> (r: Option<
    (usize, usize),
>)
    requires
        dir < 4,
        u.0 < w,
        u.1 < h,
    ensures
        r.is_some() <==> (0 <= nbr(cell_of(u), dir as int).0 < w && 0 <= nbr(
            cell_of(u),
            dir as int,
        ).1 < h && bits & dir_bit(dir as int) == 0),
        r matches Some(v) ==> cell_of(v) == nbr(cell_of(u), dir as int),
{
    let (x, y) = u;
    if dir == 0 {
        if bits & Walls::NORTH == 0 && y > 0 {
            return Some((x, y - 1));
        }
    } else if dir == 1 {
        if bits & Walls::EAST == 0 && x + 1 < w {
            return Some((x + 1, y));
        }
    } else if dir == 2 {
        if bits & Walls::SOUTH == 0 && y + 1 < h {
            return Some((x, y + 1));
        }
    } else {
        if bits & Walls::WEST == 0 && x > 0 {
            return Some((x - 1, y));
        }
    }
    None
}

/// Expands the front cell `u` (at distance `d`) in direction `dir`: an undiscovered
/// neighbour behind an absent wall gets distance `d + 1` and joins the queue; it is returned.
fn relax(
    maze: &Maze,
    dist: &mut Vec<usize>,
    q: &mut VecDeque<(usize, usize)>,
    u: (usize, usize),
    d: usize,
    dir: usize,
    Ghost(s): Ghost<Cell>,
) -> (found: Option<(usize, usize)>)
    requires
        maze.wf(),
        dir < 4,
        bfs_inv(maze@, s, old(dist)@, seq![cell_of(u)] + cells_of(old(q)@)),
        dv(maze@, old(dist)@, cell_of(u)) == d,
    ensures
        bfs_inv(maze@, s, final(dist)@, seq![cell_of(u)] + cells_of(final(q)@)),
        final(dist)@.len() == old(dist)@.len(),
        dv(maze@, final(dist)@, cell_of(u)) == d,
        maze@.step(cell_of(u), nbr(cell_of(u), dir as int)) ==> fin(
            maze@,
            final(dist)@,
            nbr(cell_of(u), dir as int),
        ) && dv(maze@, final(dist)@, nbr(cell_of(u), dir as int)) <= d + 1,
        forall|c: Cell|
            #![trigger maze@.idx(c)]
            maze@.in_bounds(c) && fin(maze@, old(dist)@, c) ==> fin(maze@, final(dist)@, c) && dv(
                maze@,
                final(dist)@,
                c,
            ) == dv(maze@, old(dist)@, c),
        match found {
            Some(v) => {
                &&& cell_of(v) == nbr(cell_of(u), dir as int)
                &&& maze@.step(cell_of(u), cell_of(v))
                &&& !fin(maze@, old(dist)@, cell_of(v))
                &&& dv(maze@, final(dist)@, cell_of(v)) == d + 1
                &&& final(dist)@ == old(dist)@.update(maze@.idx(cell_of(v)), (d + 1) as usize)
                &&& final(q)@ == old(q)@.push(v)
                &&& index_set(final(dist)@, finite_pred()).len() == index_set(
                    old(dist)@,
                    finite_pred(),
                ).len() + 1
            },
            None => {
                &&& final(dist)@ == old(dist)@
                &&& final(q)@ == old(q)@
            },
        },
{
    let ghost g = maze@;
    let ghost pend = seq![cell_of(u)] + cells_of(q@);
    let w = maze.width();
    let h = maze.height();
    assert(pend[0] == cell_of(u));
    assert(g.in_bounds(cell_of(u)));
    proof {
        lemma_idx(g, cell_of(u), cell_of(u));
    }
    let bits = maze.walls(u.0, u.1).0;
    let ghost nb = nbr(cell_of(u), dir as int);
    proof {
        lemma_step_dir(g, cell_of(u), dir as int);
    }
    match open_neighbor(bits, u, w, h, dir) {
        None => {
            assert(!g.step(cell_of(u), nb));
            None
        },
        Some(v) => {
            proof {
                lemma_idx(g, cell_of(v), cell_of(v));
            }
            let n = maze.cell_count();
            let vi = v.1 * w + v.0;
            if dist[vi] == usize::MAX {
                proof {
                    lemma_bfs_relax(g, s, dist@, pend, cell_of(v));
                    assert forall|c: Cell|
                        #![trigger g.idx(c)]
                        g.in_bounds(c) && fin(g, dist@, c) implies fin(
                        g,
                        dist@.update(g.idx(cell_of(v)), (d + 1) as usize),
                        c,
                    ) && dv(g, dist@.update(g.idx(cell_of(v)), (d + 1) as usize), c) == dv(
                        g,
                        dist@,
                        c,
                    ) by {
                        lemma_update_keeps(g, dist@, cell_of(v), (d + 1) as usize, c);
                    }
                }
                dist.set(vi, d + 1);
                q.push_back(v);
                proof {
                    assert(cells_of(q@) =~= cells_of(old(q)@).push(cell_of(v)));
                    assert(seq![cell_of(u)] + cells_of(q@) =~= pend.push(cell_of(v)));
                    lemma_update_keeps(g, old(dist)@, cell_of(v), (d + 1) as usize, cell_of(u));
                }
                Some(v)
            } else {
                assert(fin(g, dist@, nb));
                assert(g.in_bounds(nb));
                None
            }
        },
    }
}

/// Breadth-first search on the maze graph (cells are nodes; edges exist through absent walls).
pub fn is_reachable(maze: &Maze, start: (usize, usize), goal: (usize, usize)) -> (r: bool)
    requires
        maze.wf(),
    ensures
        r == maze@.reachable(cell_of(start), cell_of(goal)),
{
    shortest_path_len(maze, start, goal).is_some()
}

/// Number of **steps** (cell-to-cell moves) from `start` to `goal`, or `None` if unreachable.
pub fn shortest_path_len(maze: &Maze, start: (usize, usize), goal: (usize, usize)) -> (r: Option<
    usize,
>)
    requires
        maze.wf(),
    ensures
        r.is_some() <==> maze@.reachable(cell_of(start), cell_of(goal)),
        r matches Some(k) ==> maze@.shortest(cell_of(start), cell_of(goal), k as nat),
{
    let ghost g = maze@;
    let ghost s = cell_of(start);
    let ghost t = cell_of(goal);
    let w = maze.width();
    let h = maze.height();
    let n = maze.cell_count();
    if start.0 >= w || start.1 >= h || goal.0 >= w || goal.1 >= h {
        proof {
            if g.reachable(s, t) {
                let k = choose|k: nat| #[trigger] g.walk(s, t, k);
                lemma_walk_in_bounds(g, s, t, k);
            }
        }
        return None;
    }
    if start.0 == goal.0 && start.1 == goal.1 {
        proof {
            lemma_walk_zero(g, s);
        }
        return Some(0);
    }
    let mut dist = vec![usize::MAX; w * h];
    proof {
        lemma_idx(g, s, s);
        lemma_idx(g, s, t);
        lemma_idx(g, t, s);
    }
    let si = start.1 * w + start.0;
    let ghost dist0 = dist@;
    dist.set(si, 0);
    let mut q: VecDeque<(usize, usize)> = VecDeque::new();
    q.push_back(start);
    proof {
        lemma_bfs_init(g, s, dist0);
        assert(cells_of(q@) =~= seq![s]);
        lemma_index_set_bounds(dist@, finite_pred());
        assert(s != t);
        assert(dist0[g.idx(t)] == usize::MAX);
        assert(dist@[g.idx(t)] == usize::MAX);
    }
    while q.len() > 0
        invariant
            g == maze@,
            maze.wf(),
            w == g.width,
            h == g.height,
            n == w * h,
            s == cell_of(start),
            t == cell_of(goal),
            g.in_bounds(t),
            !fin(g, dist@, t),
            bfs_inv(g, s, dist@, cells_of(q@)),
            index_set(dist@, finite_pred()).len() <= n,
        decreases n - index_set(dist@, finite_pred()).len() + q@.len(),
    {
        let ghost q0 = q@;
        let u = q.pop_front().unwrap();
        proof {
            assert(seq![cell_of(u)] + cells_of(q@) =~= cells_of(q0));
            assert(cells_of(q0)[0] == cell_of(u));
            lemma_idx(g, cell_of(u), cell_of(u));
        }
        let d = dist[u.1 * w + u.0];
        let ghost m0 = n - index_set(dist@, finite_pred()).len() + q@.len();
        let mut k: usize = 0;
        while k < 4
            invariant
                g == maze@,
                maze.wf(),
                w == g.width,
                h == g.height,
                n == w * h,
                s == cell_of(start),
                t == cell_of(goal),
                g.in_bounds(t),
                !fin(g, dist@, t),
                k <= 4,
                bfs_inv(g, s, dist@, seq![cell_of(u)] + cells_of(q@)),
                dv(g, dist@, cell_of(u)) == d,
                index_set(dist@, finite_pred()).len() <= n,
                n - index_set(dist@, finite_pred()).len() + q@.len() == m0,
                forall|j: int|
                    0 <= j < k && #[trigger] g.step(cell_of(u), nbr(cell_of(u), dir_order(j)))
                        ==> fin(g, dist@, nbr(cell_of(u), dir_order(j))) && dv(
                        g,
                        dist@,
                        nbr(cell_of(u), dir_order(j)),
                    ) <= d + 1,
            decreases 4 - k,
        {
            let dir = dir_at(k);
            let ghost d0 = dist@;
            let ghost p0 = seq![cell_of(u)] + cells_of(q@);
            let found = relax(maze, &mut dist, &mut q, u, d, dir, Ghost(s));
            if let Some(v) = found {
                if v.0 == goal.0 && v.1 == goal.1 {
                    proof {
                        assert(p0[0] == cell_of(u));
                        lemma_bfs_found(g, s, d0, p0, t);
                        let p1 = seq![cell_of(u)] + cells_of(q@);
                        assert(g.walk(s, t, dv(g, dist@, t) as nat));
                    }
                    return Some(d + 1);
                }
                proof {
                    assert(cell_of(v) != t);
                    lemma_idx(g, t, cell_of(v));
                    lemma_idx(g, cell_of(v), t);
                    assert(dist@[g.idx(t)] == d0[g.idx(t)]);
                }
            }
            proof {
                assert forall|j: int|
                    0 <= j < k + 1 && #[trigger] g.step(cell_of(u), nbr(cell_of(u), dir_order(j)))
                        implies fin(g, dist@, nbr(cell_of(u), dir_order(j))) && dv(
                    g,
                    dist@,
                    nbr(cell_of(u), dir_order(j)),
                ) <= d + 1 by {
                    if j < k {
                        lemma_step_dir(g, cell_of(u), dir_order(j));
                        assert(g.idx(nbr(cell_of(u), dir_order(j))) == g.idx(
                            nbr(cell_of(u), dir_order(j)),
                        ));
                    }
                }
                lemma_index_set_bounds(dist@, finite_pred());
            }
            k = k + 1;
        }
        proof {
            let pend = seq![cell_of(u)] + cells_of(q@);
            assert(pend[0] == cell_of(u));
            assert forall|b: Cell| #[trigger] g.step(cell_of(u), b) implies fin(g, dist@, b) && dv(
                g,
                dist@,
                b,
            ) <= dv(g, dist@, cell_of(u)) + 1 by {
                let dir = lemma_step_has_dir(g, cell_of(u), b);
                lemma_dir_order_onto(dir);
                let j = choose|j: int| 0 <= j < 4 && dir_order(j) == dir;
                assert(g.step(cell_of(u), nbr(cell_of(u), dir_order(j))));
            }
            lemma_bfs_pop(g, s, dist@, pend);
            assert(pend.drop_first() =~= cells_of(q@));
            lemma_index_set_bounds(dist@, finite_pred());
        }
    }
    proof {
        lemma_bfs_complete(g, s, dist@, cells_of(q@));
        lemma_idx(g, t, t);
    }
    None
}

/// The order in which the search expands the four sides: north, south, west, east.
spec fn dir_order(k: int) -> int {
    if k == 0 {
        0
    } else if k == 1 {
        2
    } else if k == 2 {
        3
    } else {
        1
    }
}

proof fn lemma_dir_order_onto(d: int)
    requires
        0 <= d < 4,
    ensures
        exists|j: int| 0 <= j < 4 && dir_order(j) == d,
{
    if d == 0 {
        assert(dir_order(0) == d);
    } else if d == 1 {
        assert(dir_order(3) == d);
    } else if d == 2 {
        assert(dir_order(1) == d);
    } else {
        assert(dir_order(2) == d);
    }
}

fn dir_at(k: usize) -> (d: usize)
    requires
        k < 4,
    ensures
        d == dir_order(k as int),
        d < 4,
{
    if k == 0 {
        0
    } else if k == 1 {
        2
    } else if k == 2 {
        3
    } else {
        1
    }
}

/// Shortest-path distance from `start` to every cell; `usize::MAX` if unreachable.
pub fn bfs_distances(maze: &Maze, start: (usize, usize)) -> (dist: Vec<usize>)
    requires
        maze.wf(),
    ensures
        exact_distances(maze@, cell_of(start), dist@),
{
    let ghost g = maze@;
    let w = maze.width();
    let h = maze.height();
    let n = maze.cell_count();
    let mut dist = vec![usize::MAX; w * h];
    if start.0 >= w || start.1 >= h {
        proof {
            lemma_outside_start(g, cell_of(start), dist@);
        }
        return dist;
    }
    let ghost s = cell_of(start);
    proof {
        lemma_idx(g, s, s);
    }
    let si = start.1 * w + start.0;
    let ghost dist0 = dist@;
    dist.set(si, 0);
    let mut q: VecDeque<(usize, usize)> = VecDeque::new();
    q.push_back(start);
    proof {
        lemma_bfs_init(g, s, dist0);
        assert(cells_of(q@) =~= seq![s]);
        lemma_index_set_bounds(dist@, finite_pred());
    }
    while q.len() > 0
        invariant
            g == maze@,
            maze.wf(),
            w == g.width,
            h == g.height,
            n == w * h,
            bfs_inv(g, s, dist@, cells_of(q@)),
            index_set(dist@, finite_pred()).len() <= n,
        decreases n - index_set(dist@, finite_pred()).len() + q@.len(),
    {
        let ghost q0 = q@;
        let u = q.pop_front().unwrap();
        proof {
            assert(seq![cell_of(u)] + cells_of(q@) =~= cells_of(q0));
            assert(cells_of(q0)[0] == cell_of(u));
            lemma_idx(g, cell_of(u), cell_of(u));
        }
        let d = dist[u.1 * w + u.0];
        let ghost dist_a = dist@;
        let _ = relax(maze, &mut dist, &mut q, u, d, 0, Ghost(s));
        let _ = relax(maze, &mut dist, &mut q, u, d, 2, Ghost(s));
        let _ = relax(maze, &mut dist, &mut q, u, d, 3, Ghost(s));
        let _ = relax(maze, &mut dist, &mut q, u, d, 1, Ghost(s));
        proof {
            let pend = seq![cell_of(u)] + cells_of(q@);
            assert(pend[0] == cell_of(u));
            assert forall|b: Cell| #[trigger] g.step(cell_of(u), b) implies fin(g, dist@, b) && dv(
                g,
                dist@,
                b,
            ) <= dv(g, dist@, cell_of(u)) + 1 by {
                let dir = lemma_step_has_dir(g, cell_of(u), b);
                lemma_step_dir(g, cell_of(u), dir);
            }
            lemma_bfs_pop(g, s, dist@, pend);
            assert(pend.drop_first() =~= cells_of(q@));
            lemma_index_set_bounds(dist@, finite_pred());
        }
    }
    proof {
        lemma_bfs_complete(g, s, dist@, cells_of(q@));
    }
    dist
}

/// The distance table and the single-goal query agree: for every cell of the grid the table
/// holds exactly the shortest path length that `shortest_path_len` gives, and `usize::MAX`
/// exactly where that is `None`.
pub proof fn lemma_distances_agree_with_shortest(
    g: GridView,
    s: Cell,
    dist: Seq<usize>,
    v: Cell,
    r: Option<usize>,
)
    requires
        exact_distances(g, s, dist),
        g.in_bounds(v),
        r.is_some() <==> g.reachable(s, v),
        r matches Some(k) ==> g.shortest(s, v, k as nat),
    ensures
        r is None <==> dist[g.idx(v)] == usize::MAX,
        r matches Some(k) ==> dist[g.idx(v)] == k,
{
    assert(g.idx(v) == g.idx(v));
    if dist[g.idx(v)] != usize::MAX {
        super::grid::lemma_shortest_is_distance(g, s, v, dist[g.idx(v)] as nat);
    }
    if let Some(k) = r {
        super::grid::lemma_shortest_is_distance(g, s, v, k as nat);
    }
}

/// With two-way passages a shortest way back is as long as the way there: the query from `a`
/// to `b` and the query from `b` to `a` give the same answer (as `shortest_path_len` states
/// them).
pub proof fn lemma_shortest_symmetric(
    g: GridView,
    a: Cell,
    b: Cell,
    ab: Option<usize>,
    ba: Option<usize>,
)
    requires
        g.symmetric(),
        ab.is_some() <==> g.reachable(a, b),
        ab matches Some(k) ==> g.shortest(a, b, k as nat),
        ba.is_some() <==> g.reachable(b, a),
        ba matches Some(k) ==> g.shortest(b, a, k as nat),
    ensures
        ab == ba,
{
    if g.reachable(a, b) {
        let k = choose|k: nat| #[trigger] g.walk(a, b, k);
        super::grid::lemma_walk_reverse(g, a, b, k);
    }
    if g.reachable(b, a) {
        let k = choose|k: nat| #[trigger] g.walk(b, a, k);
        super::grid::lemma_walk_reverse(g, b, a, k);
    }
    if let (Some(k1), Some(k2)) = (ab, ba) {
        assert forall|j: nat| j < k1 implies !#[trigger] g.walk(b, a, j) by {
            if g.walk(b, a, j) {
                super::grid::lemma_walk_reverse(g, b, a, j);
            }
        }
        assert forall|j: nat| j < k2 implies !#[trigger] g.walk(a, b, j) by {
            if g.walk(a, b, j) {
                super::grid::lemma_walk_reverse(g, a, b, j);
            }
        }
        super::grid::lemma_walk_reverse(g, a, b, k1 as nat);
        super::grid::lemma_walk_reverse(g, b, a, k2 as nat);
        if k1 < k2 {
            assert(g.walk(b, a, k1 as nat));
        } else if k2 < k1 {
            assert(g.walk(a, b, k2 as nat));
        }
    }
}

} // verus!
