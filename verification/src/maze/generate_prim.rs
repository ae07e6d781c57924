//! Randomized Prim / "growing tree" style carve on a grid.
//! Compared to recursive backtracking (often longer corridors), Prim tends to produce more
//! uniform branching.
use vstd::prelude::*;

use super::carve::{all_walls, carved, lemma_all_walls, lemma_carve, lemma_carve_keeps_walk, lemma_dirs};
use super::generate::{carve_passage, grid_neighbor};
use super::grid::{
    dir_bit, lemma_all_bits, lemma_closed_set_covers, lemma_connected_from_root, lemma_idx,
    lemma_walk_extend, lemma_walk_zero, nbr, opposite, Cell, GridView, ALL_BITS,
};
use super::passages::{
    lemma_all_marked, lemma_all_walls_no_passages, lemma_carve_adds_passage, passage_count,
};
use super::solvability::cell_of;
use super::{Maze, Walls};
use crate::counting::{index_set, lemma_index_set_bounds, lemma_index_set_mark, lemma_index_set_strict};
use crate::random::random_below;

verus! {

/// A candidate passage from a cell already in the maze to one of its neighbours.
pub type Edge = ((usize, usize), (usize, usize));

pub open spec fn in_maze_pred() -> spec_fn(bool) -> bool {
    |b: bool| b
}

/// The direction in which `b` neighbours `a`, if it does.
pub open spec fn adjacent_dir(a: Cell, b: Cell, d: int) -> bool {
    0 <= d < 4 && b == nbr(a, d)
}

/// Removes the wall between neighbouring cells `a` and `b` (on both sides); cells that are
/// not neighbours are left as they are.
pub(crate) fn remove_wall_between(
    cells: &mut Vec<u8>,
    width: usize,
    a: (usize, usize),
    b: (usize, usize),
    Ghost(height): Ghost<nat>,
)
    requires
        old(cells)@.len() == width * height,
        a.0 < width,
        a.1 < height,
        b.0 < width,
        b.1 < height,
    ensures
        forall|d: int|
            #[trigger] adjacent_dir(cell_of(a), cell_of(b), d) ==> (GridView {
                width: width as nat,
                height: height,
                cells: final(cells)@,
            }) == carved(
                GridView { width: width as nat, height: height, cells: old(cells)@ },
                cell_of(a),
                d,
            ),
        (forall|d: int| !#[trigger] adjacent_dir(cell_of(a), cell_of(b), d)) ==> final(cells)@
            == old(cells)@,
{
    let (ax, ay) = a;
    let (bx, by) = b;
    let ghost h = height;
    let len = cells.len();
    assert(height <= len) by (nonlinear_arith)
        requires
            len == width * height,
            a.0 < width,
    ;
    let ghost ca = cell_of(a);
    let ghost cb = cell_of(b);
    if bx == ax + 1 && by == ay {
        proof {
            assert(nbr(ca, 1) == cb);
            assert(adjacent_dir(ca, cb, 1));
        }
        carve_passage_ghost(cells, width, Ghost(h), ax, ay, 1);
    } else if ax == bx + 1 && by == ay {
        proof {
            assert(nbr(ca, 3) == cb);
            assert(adjacent_dir(ca, cb, 3));
        }
        carve_passage_ghost(cells, width, Ghost(h), ax, ay, 3);
    } else if by == ay + 1 && bx == ax {
        proof {
            assert(nbr(ca, 2) == cb);
            assert(adjacent_dir(ca, cb, 2));
        }
        carve_passage_ghost(cells, width, Ghost(h), ax, ay, 2);
    } else if ay == by + 1 && bx == ax {
        proof {
            assert(nbr(ca, 0) == cb);
            assert(adjacent_dir(ca, cb, 0));
        }
        carve_passage_ghost(cells, width, Ghost(h), ax, ay, 0);
    } else {
        assert forall|d: int| !#[trigger] adjacent_dir(ca, cb, d) by {}
    }
}

/// `carve_passage` for a grid whose height is known only to the proof.
fn carve_passage_ghost(
    cells: &mut Vec<u8>,
    w: usize,
    Ghost(h): Ghost<nat>,
    x: usize,
    y: usize,
    dir: usize,
)
    requires
        dir < 4,
        x < w,
        y < h,
        old(cells)@.len() == w * h,
        0 <= nbr((x as int, y as int), dir as int).0 < w,
        0 <= nbr((x as int, y as int), dir as int).1 < h,
    ensures
        forall|d: int|
            #[trigger] adjacent_dir((x as int, y as int), nbr((x as int, y as int), dir as int), d)
                ==> d == dir,
        (GridView { width: w as nat, height: h, cells: final(cells)@ }) == carved(
            GridView { width: w as nat, height: h, cells: old(cells)@ },
            (x as int, y as int),
            dir as int,
        ),
{
    let n = cells.len();
    assert(n >= y * w + w) by (nonlinear_arith)
        requires
            n == w * h,
            y < h,
    ;
    let hh = n / w;
    assert(hh == h) by (nonlinear_arith)
        requires
            n == w * h,
            w > 0,
            hh == n / w,
    ;
    proof {
        lemma_dirs((x as int, y as int), dir as int);
    }
    carve_passage(cells, w, hh, x, y, dir);
}

/// The edge towards the neighbour of `c` in direction `d`, when that neighbour lies in the
/// grid and is not yet in the maze.
pub open spec fn frontier_step(w: nat, h: nat, c: (usize, usize), marks: Seq<bool>, d: int) -> Seq<
    Edge,
> {
    let nb = nbr(cell_of(c), d);
    if open_target(w, h, marks, nb) {
        seq![(c, (nb.0 as usize, nb.1 as usize))]
    } else {
        Seq::empty()
    }
}

/// The frontier edges of `c` for the first `k` directions, in direction order.
pub open spec fn frontier_upto(w: nat, h: nat, c: (usize, usize), marks: Seq<bool>, k: int) -> Seq<
    Edge,
>
    decreases k,
{
    if k <= 0 {
        Seq::empty()
    } else {
        frontier_upto(w, h, c, marks, k - 1) + frontier_step(w, h, c, marks, k - 1)
    }
}

/// Appends, in the order north, east, south, west, an edge from `(x, y)` to each in-grid
/// neighbour that is not yet in the maze.
pub fn push_frontier_edges(
    width: usize,
    height: usize,
    x: usize,
    y: usize,
    in_maze: &Vec<bool>,
    edges: &mut Vec<Edge>,
)
    requires
        x < width,
        y < height,
        in_maze@.len() == width * height,
    ensures
        final(edges)@ == old(edges)@ + frontier_upto(
            width as nat,
            height as nat,
            (x, y),
            in_maze@,
            4,
        ),
{
    let _len = in_maze.len();
    let mut d: usize = 0;
    while d < 4
        invariant
            d <= 4,
            width * height <= usize::MAX,
            x < width,
            y < height,
            in_maze@.len() == width * height,
            edges@ == old(edges)@ + frontier_upto(
                width as nat,
                height as nat,
                (x, y),
                in_maze@,
                d as int,
            ),
        decreases 4 - d,
    {
        let ghost e0 = edges@;
        match grid_neighbor(x, y, d, width, height) {
            None => {},
            Some((nx, ny)) => {
                proof {
                    let g = GridView {
                        width: width as nat,
                        height: height as nat,
                        cells: Seq::new((width * height) as nat, |i: int| 0u8),
                    };
                    lemma_idx(g, (nx as int, ny as int), (nx as int, ny as int));
                }
                let n_idx = ny * width + nx;
                if !in_maze[n_idx] {
                    edges.push(((x, y), (nx, ny)));
                }
            },
        }
        proof {
            assert(edges@ =~= e0 + frontier_step(
                width as nat,
                height as nat,
                (x, y),
                in_maze@,
                d as int,
            ));
            assert(old(edges)@ + frontier_upto(
                width as nat,
                height as nat,
                (x, y),
                in_maze@,
                d as int + 1,
            ) =~= e0 + frontier_step(width as nat, height as nat, (x, y), in_maze@, d as int));
        }
        d += 1;
    }
}

/// `x` is an in-grid neighbour of `c` that is not in the maze.
pub open spec fn unmarked_nbr(w: nat, h: nat, c: (usize, usize), marks: Seq<bool>, x: (usize, usize)) -> bool {
    exists|d: int|
        0 <= d < 4 && cell_of(x) == nbr(cell_of(c), d) && #[trigger] open_target(w, h, marks, nbr(cell_of(c), d))
}

/// `x` lies in the grid and is not in the maze.
pub open spec fn open_target(w: nat, h: nat, marks: Seq<bool>, x: Cell) -> bool {
    0 <= x.0 < w && 0 <= x.1 < h && !marks[x.1 * w + x.0]
}

/// What the frontier list holds: at most four edges, each from `c` to an in-grid neighbour not
/// in the maze, and one for every such neighbour.
proof fn lemma_frontier(w: nat, h: nat, c: (usize, usize), marks: Seq<bool>)
    requires
        w <= usize::MAX,
        h <= usize::MAX,
        c.0 < w,
        c.1 < h,
    ensures
        frontier_upto(w, h, c, marks, 4).len() <= 4,
        forall|i: int|
            0 <= i < frontier_upto(w, h, c, marks, 4).len() ==> (#[trigger] frontier_upto(w, h, c, marks, 4)[i]).0 == c
                && unmarked_nbr(w, h, c, marks, frontier_upto(w, h, c, marks, 4)[i].1),
        forall|d: int|
            0 <= d < 4 && #[trigger] open_target(w, h, marks, nbr(cell_of(c), d)) ==> has_edge(
                frontier_upto(w, h, c, marks, 4),
                cell_of(c),
                nbr(cell_of(c), d),
            ),
{
    reveal_with_fuel(frontier_upto, 5);
    let f0 = frontier_step(w, h, c, marks, 0);
    let f1 = frontier_step(w, h, c, marks, 1);
    let f2 = frontier_step(w, h, c, marks, 2);
    let f3 = frontier_step(w, h, c, marks, 3);
    let f = frontier_upto(w, h, c, marks, 4);
    assert(f =~= f0 + f1 + f2 + f3);
    let a = f0.len() as int;
    let b = a + f1.len();
    let cc = b + f2.len();
    assert forall|i: int| 0 <= i < f.len() implies (#[trigger] f[i]).0 == c && unmarked_nbr(
        w,
        h,
        c,
        marks,
        f[i].1,
    ) by {
        if i < a {
            assert(f[i] == f0[i]);
            assert(open_target(w, h, marks, nbr(cell_of(c), 0)));
        } else if i < b {
            assert(f[i] == f1[i - a]);
            assert(open_target(w, h, marks, nbr(cell_of(c), 1)));
        } else if i < cc {
            assert(f[i] == f2[i - b]);
            assert(open_target(w, h, marks, nbr(cell_of(c), 2)));
        } else {
            assert(f[i] == f3[i - cc]);
            assert(open_target(w, h, marks, nbr(cell_of(c), 3)));
        }
    }
    assert forall|d: int| 0 <= d < 4 && #[trigger] open_target(w, h, marks, nbr(cell_of(c), d)) implies has_edge(
        f,
        cell_of(c),
        nbr(cell_of(c), d),
    ) by {
        if d == 0 {
            assert(f[0] == f0[0]);
            assert(cell_of(f[0].0) == cell_of(c));
        } else if d == 1 {
            assert(f[a] == f1[0]);
            assert(cell_of(f[a].0) == cell_of(c));
        } else if d == 2 {
            assert(f[b] == f2[0]);
            assert(cell_of(f[b].0) == cell_of(c));
        } else {
            assert(f[cc] == f3[0]);
            assert(cell_of(f[cc].0) == cell_of(c));
        }
    }
}

/// The list holds an edge `c → x`.
spec fn has_edge(edges: Seq<Edge>, c: Cell, x: Cell) -> bool {
    exists|p: int| 0 <= p < edges.len() && cell_of(#[trigger] edges[p].0) == c && cell_of(edges[p].1) == x
}

/// An edge from a cell in the maze to one of its in-grid neighbours.
spec fn edge_ok(g: GridView, marks: Seq<bool>, e: Edge) -> bool {
    &&& g.in_bounds(cell_of(e.0))
    &&& marks[g.idx(cell_of(e.0))]
    &&& g.in_bounds(cell_of(e.1))
    &&& exists|d: int| #[trigger] adjacent_dir(cell_of(e.0), cell_of(e.1), d)
}

/// Every cell outside the maze still has all four walls.
spec fn fresh(g: GridView, marks: Seq<bool>) -> bool {
    forall|c: Cell| #![trigger g.bits(c)] g.in_bounds(c) && !marks[g.idx(c)] ==> g.bits(c) == ALL_BITS
}

/// Carving from a cell in the maze into an intact neighbour outside it, and adding that
/// neighbour, keeps the cells outside intact and adds one passage.
proof fn lemma_grow_fresh(g: GridView, marks: Seq<bool>, c: Cell, d: int)
    requires
        g.wf(),
        g.symmetric(),
        marks.len() == g.width * g.height,
        0 <= d < 4,
        g.in_bounds(c),
        g.in_bounds(nbr(c, d)),
        marks[g.idx(c)],
        !marks[g.idx(nbr(c, d))],
        fresh(g, marks),
    ensures
        fresh(carved(g, c, d), marks.update(g.idx(nbr(c, d)), true)),
        passage_count(carved(g, c, d)) == passage_count(g) + 1,
{
    let n = nbr(c, d);
    let g2 = carved(g, c, d);
    let m2 = marks.update(g.idx(n), true);
    lemma_carve(g, c, d);
    lemma_dirs(c, d);
    lemma_idx(g, n, n);
    lemma_idx(g, c, c);
    assert(g.bits(n) == ALL_BITS);
    lemma_all_bits(dir_bit(opposite(d)));
    lemma_carve_adds_passage(g, c, d);
    assert forall|x: Cell| #![trigger g2.bits(x)] g2.in_bounds(x) && !m2[g2.idx(x)] implies g2.bits(x)
        == ALL_BITS by {
        lemma_idx(g, x, n);
        lemma_idx(g, x, c);
        assert(g2.idx(x) == g.idx(x));
        assert(x != n);
        assert(!marks[g.idx(x)]);
        assert(x != c);
        assert(g.idx(x) != g.idx(c));
        assert(g.idx(x) != g.idx(n));
        assert(g.bits(x) == ALL_BITS);
        assert(g2.cells[g.idx(x)] == g.cells[g.idx(x)]);
    }
}

/// The state of the growth: the layout keeps its shape; every edge starts at a cell in the
/// maze and ends at a neighbour; every cell in the maze is reachable from the root; every
/// neighbour of a cell in the maze is in the maze or the end of an edge from it.
spec fn prim_inv(g: GridView, marks: Seq<bool>, edges: Seq<Edge>, root: Cell) -> bool {
    &&& g.wf()
    &&& g.width >= 1
    &&& g.height >= 1
    &&& g.width * g.height <= usize::MAX
    &&& g.width <= usize::MAX
    &&& g.height <= usize::MAX
    &&& marks.len() == g.width * g.height
    &&& g.symmetric()
    &&& g.border_closed()
    &&& g.only_wall_bits()
    &&& g.in_bounds(root)
    &&& marks[g.idx(root)]
    &&& forall|p: int| 0 <= p < edges.len() ==> edge_ok(g, marks, #[trigger] edges[p])
    &&& forall|c: Cell|
        #![trigger g.idx(c)]
        g.in_bounds(c) && marks[g.idx(c)] ==> g.reachable(root, c)
    &&& forall|c: Cell, d: int|
        #![trigger g.idx(c), nbr(c, d)]
        g.in_bounds(c) && marks[g.idx(c)] && 0 <= d < 4 && g.in_bounds(nbr(c, d)) ==> marks[g.idx(
            nbr(c, d),
        )] || has_edge(edges, c, nbr(c, d))
}

/// The frontier edges of a cell in the maze are edges of the maze.
proof fn lemma_frontier_edges_ok(g: GridView, marks: Seq<bool>, c: (usize, usize))
    requires
        g.wf(),
        g.width <= usize::MAX,
        g.height <= usize::MAX,
        marks.len() == g.width * g.height,
        g.in_bounds(cell_of(c)),
        marks[g.idx(cell_of(c))],
    ensures
        forall|i: int|
            0 <= i < frontier_upto(g.width, g.height, c, marks, 4).len() ==> edge_ok(
                g,
                marks,
                #[trigger] frontier_upto(g.width, g.height, c, marks, 4)[i],
            ),
        forall|d: int|
            0 <= d < 4 && g.in_bounds(nbr(cell_of(c), d)) && !marks[g.idx(nbr(cell_of(c), d))]
                ==> #[trigger] has_edge(
                frontier_upto(g.width, g.height, c, marks, 4),
                cell_of(c),
                nbr(cell_of(c), d),
            ),
{
    let f = frontier_upto(g.width, g.height, c, marks, 4);
    lemma_frontier(g.width, g.height, c, marks);
    assert forall|i: int| 0 <= i < f.len() implies edge_ok(g, marks, #[trigger] f[i]) by {
        assert(f[i].0 == c && unmarked_nbr(g.width, g.height, c, marks, f[i].1));
        let d = choose|d: int|
            0 <= d < 4 && cell_of(f[i].1) == nbr(cell_of(c), d) && #[trigger] open_target(
                g.width,
                g.height,
                marks,
                nbr(cell_of(c), d),
            );
        assert(adjacent_dir(cell_of(f[i].0), cell_of(f[i].1), d));
    }
    assert forall|d: int|
        0 <= d < 4 && g.in_bounds(nbr(cell_of(c), d)) && !marks[g.idx(nbr(cell_of(c), d))] implies #[trigger] has_edge(
        f,
        cell_of(c),
        nbr(cell_of(c), d),
    ) by {
        assert(open_target(g.width, g.height, marks, nbr(cell_of(c), d)));
    }
}

proof fn lemma_prim_init(w: nat, h: nat, marks0: Seq<bool>, root: (usize, usize))
    requires
        w >= 1,
        h >= 1,
        w * h <= usize::MAX,
        w <= usize::MAX,
        h <= usize::MAX,
        marks0.len() == w * h,
        forall|i: int| 0 <= i < marks0.len() ==> !marks0[i],
        root.0 < w,
        root.1 < h,
    ensures
        ({
            let g = all_walls(w, h);
            let m = marks0.update(g.idx(cell_of(root)), true);
            prim_inv(g, m, frontier_upto(w, h, root, m, 4), cell_of(root))
        }),
{
    let g = all_walls(w, h);
    let r = cell_of(root);
    let m = marks0.update(g.idx(r), true);
    let f = frontier_upto(w, h, root, m, 4);
    lemma_all_walls(w, h);
    lemma_idx(g, r, r);
    lemma_walk_zero(g, r);
    lemma_frontier_edges_ok(g, m, root);
    assert forall|c: Cell| #![trigger g.idx(c)] g.in_bounds(c) && m[g.idx(c)] implies c == r by {
        lemma_idx(g, c, r);
    }
    assert forall|c: Cell, d: int|
        #![trigger g.idx(c), nbr(c, d)]
        g.in_bounds(c) && m[g.idx(c)] && 0 <= d < 4 && g.in_bounds(nbr(c, d)) implies m[g.idx(
            nbr(c, d),
        )] || has_edge(f, c, nbr(c, d)) by {
        assert(c == r);
    }
}

/// Removing the element at `p` by swapping the last one into its place keeps every other
/// element.
proof fn lemma_swap_remove_keeps(edges: Seq<Edge>, p: int)
    requires
        0 <= p < edges.len(),
    ensures
        forall|q: int|
            0 <= q < edges.len() && q != p ==> exists|r: int|
                0 <= r < edges.len() - 1 && #[trigger] edges.update(p, edges.last()).drop_last()[r]
                    == #[trigger] edges[q],
        forall|r: int|
            0 <= r < edges.len() - 1 ==> exists|q: int|
                0 <= q < edges.len() && #[trigger] edges.update(p, edges.last()).drop_last()[r]
                    == #[trigger] edges[q],
{
    let e2 = edges.update(p, edges.last()).drop_last();
    assert forall|q: int| 0 <= q < edges.len() && q != p implies exists|r: int|
        0 <= r < edges.len() - 1 && #[trigger] e2[r] == #[trigger] edges[q] by {
        if q == edges.len() - 1 {
            assert(e2[p] == edges[q]);
        } else {
            assert(e2[q] == edges[q]);
        }
    }
    assert forall|r: int| 0 <= r < edges.len() - 1 implies exists|q: int|
        0 <= q < edges.len() && #[trigger] e2[r] == #[trigger] edges[q] by {
        if r == p {
            assert(e2[r] == edges[edges.len() - 1]);
        } else {
            assert(e2[r] == edges[r]);
        }
    }
}

/// An edge from `c` to `x` other than the one at `p` survives its removal.
proof fn lemma_has_edge_after_remove(edges: Seq<Edge>, p: int, c: Cell, x: Cell)
    requires
        0 <= p < edges.len(),
        has_edge(edges, c, x),
        !(cell_of(edges[p].0) == c && cell_of(edges[p].1) == x),
    ensures
        has_edge(edges.update(p, edges.last()).drop_last(), c, x),
{
    let e2 = edges.update(p, edges.last()).drop_last();
    lemma_swap_remove_keeps(edges, p);
    let q = choose|q: int| 0 <= q < edges.len() && cell_of(#[trigger] edges[q].0) == c && cell_of(edges[q].1) == x;
    assert(q != p);
    let r = choose|r: int| 0 <= r < edges.len() - 1 && #[trigger] e2[r] == #[trigger] edges[q];
    assert(cell_of(e2[r].0) == c && cell_of(e2[r].1) == x);
}

/// Dropping edge `p` whose end is already in the maze keeps the state.
proof fn lemma_prim_skip(g: GridView, marks: Seq<bool>, edges: Seq<Edge>, root: Cell, p: int)
    requires
        prim_inv(g, marks, edges, root),
        0 <= p < edges.len(),
        marks[g.idx(cell_of(edges[p].1))],
    ensures
        prim_inv(g, marks, edges.update(p, edges.last()).drop_last(), root),
{
    let e2 = edges.update(p, edges.last()).drop_last();
    lemma_swap_remove_keeps(edges, p);
    assert forall|r: int| 0 <= r < e2.len() implies edge_ok(g, marks, #[trigger] e2[r]) by {
        let q = choose|q: int| 0 <= q < edges.len() && #[trigger] e2[r] == #[trigger] edges[q];
    }
    assert forall|c: Cell, d: int|
        #![trigger g.idx(c), nbr(c, d)]
        g.in_bounds(c) && marks[g.idx(c)] && 0 <= d < 4 && g.in_bounds(nbr(c, d)) implies marks[g.idx(
            nbr(c, d),
        )] || has_edge(e2, c, nbr(c, d)) by {
        if !marks[g.idx(nbr(c, d))] {
            lemma_has_edge_after_remove(edges, p, c, nbr(c, d));
        }
    }
}

pub fn generate_randomized_prim(width: usize, height: usize) -> (m: Maze)
    requires
        width >= 1,
        height >= 1,
        width * height <= usize::MAX,
    ensures
        m.wf(),
        m@.width == width,
        m@.height == height,
        m@.connected_maze(),
        passage_count(m@) + 1 == width * height,
{
    let n = width * height;
    assert(n >= 1) by (nonlinear_arith)
        requires
            n == width * height,
            width >= 1,
            height >= 1,
    ;
    let mut cells = vec![Walls::ALL; n];
    let mut in_maze = vec![false; n];
    let ghost w = width as nat;
    let ghost h = height as nat;

    let sx = random_below(width);
    let sy = random_below(height);
    let ghost root = (sx as int, sy as int);
    proof {
        lemma_idx(all_walls(w, h), root, root);
    }
    let ghost marks0 = in_maze@;
    in_maze.set(sy * width + sx, true);

    let mut edges: Vec<Edge> = Vec::new();
    push_frontier_edges(width, height, sx, sy, &in_maze, &mut edges);
    proof {
        assert(cells@ =~= all_walls(w, h).cells);
        assert(edges@ =~= frontier_upto(w, h, (sx, sy), in_maze@, 4));
        lemma_prim_init(w, h, marks0, (sx, sy));
        assert(index_set(marks0, in_maze_pred()) =~= Set::empty());
        lemma_index_set_mark(marks0, in_maze_pred(), sy * width + sx, true);
        lemma_index_set_bounds(in_maze@, in_maze_pred());
        lemma_all_walls_no_passages(w, h);
        let g = all_walls(w, h);
        lemma_all_walls(w, h);
        assert forall|c: Cell| #![trigger g.bits(c)] g.in_bounds(c) && !in_maze@[g.idx(c)] implies g.bits(c)
            == ALL_BITS by {
            lemma_idx(g, c, c);
        }
    }

    while !edges.is_empty()
        invariant
            w == width,
            h == height,
            n == width * height,
            cells@.len() == n,
            prim_inv(GridView { width: w, height: h, cells: cells@ }, in_maze@, edges@, root),
            index_set(in_maze@, in_maze_pred()).len() <= n,
            fresh(GridView { width: w, height: h, cells: cells@ }, in_maze@),
            passage_count(GridView { width: w, height: h, cells: cells@ }) + 1 == index_set(
                in_maze@,
                in_maze_pred(),
            ).len(),
        decreases 4 * (n - index_set(in_maze@, in_maze_pred()).len()) + edges@.len(),
    {
        let ghost g = GridView { width: w, height: h, cells: cells@ };
        let ghost e0 = edges@;
        let i = random_below(edges.len());
        let ((ax, ay), (bx, by)) = edges.swap_remove(i);
        let ghost ca = (ax as int, ay as int);
        let ghost cb = (bx as int, by as int);
        proof {
            assert(cell_of(e0[i as int].0) == ca && cell_of(e0[i as int].1) == cb);
            lemma_idx(g, ca, ca);
            lemma_idx(g, cb, cb);
        }
        let ai = ay * width + ax;
        let bi = by * width + bx;
        let a_in = in_maze[ai];
        let b_in = in_maze[bi];
        if a_in == b_in {
            proof {
                lemma_prim_skip(g, in_maze@, e0, root, i as int);
            }
            continue;
        }
        let (new_x, new_y) = if a_in {
            (bx, by)
        } else {
            (ax, ay)
        };
        let ghost d = choose|d: int| adjacent_dir(ca, cb, d);
        remove_wall_between(&mut cells, width, (ax, ay), (bx, by), Ghost(h));
        let ni = new_y * width + new_x;
        if in_maze[ni] {
            continue;
        }
        let ghost m1 = in_maze@;
        let ghost e1 = edges@;
        in_maze.set(ni, true);
        push_frontier_edges(width, height, new_x, new_y, &in_maze, &mut edges);
        proof {
            assert(adjacent_dir(ca, cb, d));
            lemma_prim_grow(g, m1, e0, root, i as int, d);
            lemma_grow_fresh(g, m1, ca, d);
            assert(edges@ == e1 + frontier_upto(w, h, (bx, by), in_maze@, 4));
            lemma_index_set_strict(m1, in_maze_pred(), g.idx(cb));
            lemma_index_set_mark(m1, in_maze_pred(), g.idx(cb), true);
            lemma_index_set_bounds(in_maze@, in_maze_pred());
            lemma_frontier(w, h, (bx, by), in_maze@);
        }
    }
    proof {
        let g = GridView { width: w, height: h, cells: cells@ };
        lemma_prim_done(g, in_maze@, edges@, root);
        lemma_all_marked(g, in_maze@, in_maze_pred());
    }
    Maze::new(width, height, cells)
}

/// Taking edge `p` from a cell in the maze to a neighbour outside it: carving the passage,
/// adding the neighbour, and appending its frontier keeps the state.
#[verifier::spinoff_prover]
#[verifier::rlimit(60)]
proof fn lemma_prim_grow(g: GridView, marks: Seq<bool>, edges: Seq<Edge>, root: Cell, p: int, d: int)
    requires
        prim_inv(g, marks, edges, root),
        0 <= p < edges.len(),
        !marks[g.idx(cell_of(edges[p].1))],
        adjacent_dir(cell_of(edges[p].0), cell_of(edges[p].1), d),
    ensures
        ({
            let a = cell_of(edges[p].0);
            let b = edges[p].1;
            let g2 = carved(g, a, d);
            let m2 = marks.update(g.idx(cell_of(b)), true);
            prim_inv(
                g2,
                m2,
                edges.update(p, edges.last()).drop_last() + frontier_upto(
                    g.width,
                    g.height,
                    b,
                    m2,
                    4,
                ),
                root,
            )
        }),
{
    let a = cell_of(edges[p].0);
    let bu = edges[p].1;
    let b = cell_of(bu);
    let g2 = carved(g, a, d);
    let m2 = marks.update(g.idx(b), true);
    let er = edges.update(p, edges.last()).drop_last();
    let fr = frontier_upto(g.width, g.height, bu, m2, 4);
    let e2 = er + fr;
    assert(edge_ok(g, marks, edges[p]));
    lemma_carve(g, a, d);
    lemma_idx(g, b, b);
    lemma_idx(g, a, b);
    lemma_idx(g, root, b);
    assert(g2.idx(b) == g.idx(b));
    lemma_frontier_edges_ok(g2, m2, bu);
    lemma_swap_remove_keeps(edges, p);
    // edges
    assert forall|q: int| 0 <= q < e2.len() implies edge_ok(g2, m2, #[trigger] e2[q]) by {
        if q < er.len() {
            assert(e2[q] == er[q]);
            let q0 = choose|q0: int| 0 <= q0 < edges.len() && #[trigger] er[q] == #[trigger] edges[q0];
            assert(edge_ok(g, marks, edges[q0]));
            lemma_idx(g, cell_of(edges[q0].0), b);
            assert(g2.idx(cell_of(edges[q0].0)) == g.idx(cell_of(edges[q0].0)));
        } else {
            assert(e2[q] == fr[q - er.len()]);
        }
    }
    // reachability
    assert forall|x: Cell| #![trigger g2.idx(x)] g2.in_bounds(x) && m2[g2.idx(x)] implies g2.reachable(
        root,
        x,
    ) by {
        lemma_idx(g, x, b);
        if x == b {
            assert(g.idx(a) == g.idx(a));
            assert(g.reachable(root, a));
            let k = choose|k: nat| #[trigger] g.walk(root, a, k);
            lemma_carve_keeps_walk(g, a, d, root, a, k);
            lemma_walk_extend(g2, root, a, b, k);
        } else {
            assert(g.idx(x) == g.idx(x));
            assert(g.reachable(root, x));
            let k = choose|k: nat| #[trigger] g.walk(root, x, k);
            lemma_carve_keeps_walk(g, a, d, root, x, k);
        }
    }
    // closure
    assert forall|c: Cell, dd: int|
        #![trigger g2.idx(c), nbr(c, dd)]
        g2.in_bounds(c) && m2[g2.idx(c)] && 0 <= dd < 4 && g2.in_bounds(nbr(c, dd)) implies m2[g2.idx(
            nbr(c, dd),
        )] || has_edge(e2, c, nbr(c, dd)) by {
        let x = nbr(c, dd);
        lemma_idx(g, x, b);
        lemma_idx(g, c, b);
        if !m2[g2.idx(x)] {
            if c == b {
                assert(has_edge(fr, c, x));
                let i = choose|i: int| 0 <= i < fr.len() && cell_of(#[trigger] fr[i].0) == c && cell_of(fr[i].1) == x;
                assert(e2[er.len() + i] == fr[i]);
                assert(cell_of(e2[er.len() + i].0) == c && cell_of(e2[er.len() + i].1) == x);
            } else {
                assert(g.idx(c) == g.idx(c));
                assert(marks[g.idx(c)]);
                assert(!marks[g.idx(x)]);
                assert(has_edge(edges, c, x));
                lemma_has_edge_after_remove(edges, p, c, x);
                let r = choose|r: int| 0 <= r < er.len() && cell_of(#[trigger] er[r].0) == c && cell_of(er[r].1) == x;
                assert(e2[r] == er[r]);
                assert(cell_of(e2[r].0) == c && cell_of(e2[r].1) == x);
            }
        }
    }
}

/// With no edges left every cell is in the maze, so every cell is reachable from the root
/// and, passages being two-way, from every cell.
proof fn lemma_prim_done(g: GridView, marks: Seq<bool>, edges: Seq<Edge>, root: Cell)
    requires
        prim_inv(g, marks, edges, root),
        edges.len() == 0,
    ensures
        g.connected_maze(),
        forall|c: Cell| g.in_bounds(c) ==> #[trigger] marks[g.idx(c)],
{
    let p = |c: Cell| marks[g.idx(c)];
    assert forall|c: Cell, d: int|
        0 <= c.0 < g.width && 0 <= c.1 < g.height && 0 <= d < 4 && 0 <= nbr(c, d).0 < g.width && 0
            <= nbr(c, d).1 < g.height && #[trigger] p(c) implies #[trigger] p(nbr(c, d)) by {
        assert(g.idx(c) == g.idx(c));
        assert(g.in_bounds(nbr(c, d)));
        assert(!has_edge(edges, c, nbr(c, d)));
    }
    lemma_closed_set_covers(g.width as int, g.height as int, p, root);
    assert forall|c: Cell| g.in_bounds(c) implies #[trigger] g.reachable(root, c) by {
        assert(p(c));
        assert(g.idx(c) == g.idx(c));
    }
    assert forall|c: Cell| g.in_bounds(c) implies #[trigger] marks[g.idx(c)] by {
        assert(p(c));
    }
    lemma_connected_from_root(g, root);
}

} // verus!
