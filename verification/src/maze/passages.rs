//! Counting the open passages of a maze. A connected layout with exactly one passage fewer
//! than it has cells is a spanning tree of the grid: a **perfect maze**, with exactly one
//! way between any two cells.
use vstd::prelude::*;

use super::carve::{carved, lemma_carve_open, lemma_dirs, all_walls, lemma_all_walls};
use super::grid::{
    dir_bit, lemma_all_bits, lemma_cell_of_index, lemma_idx, lemma_step_dir, nbr, opposite, Cell,
    GridView, E_BIT, S_BIT,
};
use crate::counting::{index_set, lemma_index_set_bounds};
use vstd::set_lib::*;

verus! {

/// The passages counted at cell `c`: the one to its east and the one to its south, where
/// those neighbours lie in the grid (each passage is counted once, at its west or north end).
pub open spec fn cell_passages(g: GridView, c: Cell) -> int {
    (if c.0 + 1 < g.width && g.open(c, E_BIT) {
        1int
    } else {
        0int
    }) + (if c.1 + 1 < g.height && g.open(c, S_BIT) {
        1int
    } else {
        0int
    })
}

/// Passages counted at the first `x` cells of row `y`.
pub open spec fn row_passages(g: GridView, y: int, x: int) -> int
    decreases x,
{
    if x <= 0 {
        0
    } else {
        row_passages(g, y, x - 1) + cell_passages(g, (x - 1, y))
    }
}

/// Passages counted at the cells of the first `y` rows.
pub open spec fn rows_passages(g: GridView, y: int) -> int
    decreases y,
{
    if y <= 0 {
        0
    } else {
        rows_passages(g, y - 1) + row_passages(g, y - 1, g.width as int)
    }
}

/// The number of open passages between neighbouring cells.
pub open spec fn passage_count(g: GridView) -> int {
    rows_passages(g, g.height as int)
}

/// What changing the cell `p` adds to the count of the first `x` cells of row `y`.
spec fn row_delta(g: GridView, g2: GridView, p: Cell, y: int, x: int) -> int {
    if p.1 == y && 0 <= p.0 < x {
        cell_passages(g2, p) - cell_passages(g, p)
    } else {
        0
    }
}

/// What changing the cell `p` adds to the count of the first `y` rows.
spec fn rows_delta(g: GridView, g2: GridView, p: Cell, y: int) -> int {
    if 0 <= p.1 < y {
        cell_passages(g2, p) - cell_passages(g, p)
    } else {
        0
    }
}

/// Two grids of one shape whose cells count alike except at `p` and `q`.
spec fn differ_at_most(g: GridView, g2: GridView, p: Cell, q: Cell) -> bool {
    &&& g2.width == g.width
    &&& g2.height == g.height
    &&& g.in_bounds(p)
    &&& g.in_bounds(q)
    &&& p != q
    &&& forall|a: Cell|
        g.in_bounds(a) && a != p && a != q ==> #[trigger] cell_passages(g2, a) == cell_passages(g, a)
}

proof fn lemma_row_delta(g: GridView, g2: GridView, p: Cell, q: Cell, y: int, x: int)
    requires
        differ_at_most(g, g2, p, q),
        0 <= y < g.height,
        0 <= x <= g.width,
    ensures
        row_passages(g2, y, x) == row_passages(g, y, x) + row_delta(g, g2, p, y, x) + row_delta(
            g,
            g2,
            q,
            y,
            x,
        ),
    decreases x,
{
    if x > 0 {
        lemma_row_delta(g, g2, p, q, y, x - 1);
        let a = (x - 1, y);
        if a != p && a != q {
            assert(g.in_bounds(a));
            assert(cell_passages(g2, a) == cell_passages(g, a));
        }
    }
}

proof fn lemma_rows_delta(g: GridView, g2: GridView, p: Cell, q: Cell, y: int)
    requires
        differ_at_most(g, g2, p, q),
        0 <= y <= g.height,
    ensures
        rows_passages(g2, y) == rows_passages(g, y) + rows_delta(g, g2, p, y) + rows_delta(
            g,
            g2,
            q,
            y,
        ),
    decreases y,
{
    if y > 0 {
        lemma_rows_delta(g, g2, p, q, y - 1);
        lemma_row_delta(g, g2, p, q, y - 1, g.width as int);
    }
}

/// Carving a passage through two intact walls (the neighbour's facing wall is standing, so
/// by two-way passages so is the cell's) adds exactly one passage.
pub proof fn lemma_carve_adds_passage(g: GridView, c: Cell, d: int)
    requires
        g.wf(),
        g.symmetric(),
        0 <= d < 4,
        g.in_bounds(c),
        g.in_bounds(nbr(c, d)),
        !g.open(nbr(c, d), dir_bit(opposite(d))),
    ensures
        passage_count(carved(g, c, d)) == passage_count(g) + 1,
{
    let n = nbr(c, d);
    let g2 = carved(g, c, d);
    lemma_dirs(c, d);
    lemma_step_dir(g, c, d);
    lemma_step_dir(g, n, opposite(d));
    if g.open(c, dir_bit(d)) {
        assert(g.step(c, n));
        assert(g.step(n, c));
    }
    assert forall|a: Cell|
        g.in_bounds(a) && a != c && a != n implies #[trigger] cell_passages(g2, a) == cell_passages(
        g,
        a,
    ) by {
        lemma_carve_open(g, c, d, a, E_BIT);
        lemma_carve_open(g, c, d, a, S_BIT);
    }
    lemma_carve_open(g, c, d, c, E_BIT);
    lemma_carve_open(g, c, d, c, S_BIT);
    lemma_carve_open(g, c, d, n, E_BIT);
    lemma_carve_open(g, c, d, n, S_BIT);
    lemma_rows_delta(g, g2, c, n, g.height as int);
}

proof fn lemma_rows_zero(g: GridView, y: int)
    requires
        0 <= y <= g.height,
        forall|a: Cell| g.in_bounds(a) ==> #[trigger] cell_passages(g, a) == 0,
    ensures
        rows_passages(g, y) == 0,
    decreases y,
{
    if y > 0 {
        lemma_rows_zero(g, y - 1);
        lemma_row_zero(g, y - 1, g.width as int);
    }
}

proof fn lemma_row_zero(g: GridView, y: int, x: int)
    requires
        0 <= y < g.height,
        0 <= x <= g.width,
        forall|a: Cell| g.in_bounds(a) ==> #[trigger] cell_passages(g, a) == 0,
    ensures
        row_passages(g, y, x) == 0,
    decreases x,
{
    if x > 0 {
        lemma_row_zero(g, y, x - 1);
        assert(g.in_bounds((x - 1, y)));
    }
}

/// A grid with every wall present has no passage.
pub proof fn lemma_all_walls_no_passages(w: nat, h: nat)
    ensures
        passage_count(all_walls(w, h)) == 0,
{
    let g = all_walls(w, h);
    lemma_all_walls(w, h);
    assert forall|a: Cell| g.in_bounds(a) implies #[trigger] cell_passages(g, a) == 0 by {
        lemma_idx(g, a, a);
        lemma_all_bits(E_BIT);
        lemma_all_bits(S_BIT);
    }
    lemma_rows_zero(g, h as int);
}

/// When every cell of the grid is marked, every position of the marks is.
pub proof fn lemma_all_marked(g: GridView, marks: Seq<bool>, p: spec_fn(bool) -> bool)
    requires
        g.width > 0,
        marks.len() == g.width * g.height,
        forall|c: Cell| g.in_bounds(c) ==> p(#[trigger] marks[g.idx(c)]),
    ensures
        index_set(marks, p).len() == g.width * g.height,
{
    assert forall|i: int| 0 <= i < marks.len() implies p(#[trigger] marks[i]) by {
        lemma_cell_of_index(g, i);
        let c = (i % g.width as int, i / g.width as int);
        assert(p(marks[g.idx(c)]));
    }
    assert(index_set(marks, p) =~= set_int_range(0, marks.len() as int));
    lemma_int_range(0, marks.len() as int);
}

} // verus!
