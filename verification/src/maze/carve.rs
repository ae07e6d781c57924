//! Opening a passage between two neighbouring cells, and what that keeps true of a maze
//! under construction.
use vstd::prelude::*;

use super::grid::{
    dir_bit, is_wall_bit, lemma_all_bits, lemma_clear_bit, lemma_idx, lemma_step_dir,
    lemma_step_has_dir, lemma_walk_mono, nbr, opposite, Cell, GridView, ALL_BITS, E_BIT, N_BIT,
    S_BIT, W_BIT,
};

verus! {

/// The grid after removing the wall of `c` in direction `d` and the facing wall of its
/// neighbour.
pub open spec fn carved(g: GridView, c: Cell, d: int) -> GridView {
    let n = nbr(c, d);
    GridView {
        width: g.width,
        height: g.height,
        cells: g.cells.update(g.idx(c), g.cells[g.idx(c)] & !dir_bit(d)).update(
            g.idx(n),
            g.cells[g.idx(n)] & !dir_bit(opposite(d)),
        ),
    }
}

/// A grid with every wall present.
pub open spec fn all_walls(w: nat, h: nat) -> GridView {
    GridView { width: w, height: h, cells: Seq::new(w * h, |i: int| ALL_BITS) }
}

/// Facts about the four directions.
pub proof fn lemma_dirs(c: Cell, d: int)
    requires
        0 <= d < 4,
    ensures
        0 <= opposite(d) < 4,
        opposite(opposite(d)) == d,
        nbr(nbr(c, d), opposite(d)) == c,
        nbr(c, d) != c,
        is_wall_bit(dir_bit(d)),
        dir_bit(d) == 1 || dir_bit(d) == 2 || dir_bit(d) == 4 || dir_bit(d) == 8,
        forall|e: int| 0 <= e < 4 && dir_bit(e) == dir_bit(d) ==> e == d,
{
}

/// A grid with every wall present has two-way passages (none), a closed boundary and only
/// wall bits.
pub proof fn lemma_all_walls(w: nat, h: nat)
    ensures
        all_walls(w, h).wf(),
        all_walls(w, h).symmetric(),
        all_walls(w, h).border_closed(),
        all_walls(w, h).only_wall_bits(),
        forall|a: Cell, b: Cell| !#[trigger] all_walls(w, h).step(a, b),
{
    let g = all_walls(w, h);
    assert forall|a: Cell, b: Cell| !#[trigger] g.step(a, b) by {
        if g.step(a, b) {
            let d = lemma_step_has_dir(g, a, b);
            lemma_idx(g, a, a);
            lemma_all_bits(dir_bit(d));
        }
    }
    assert forall|c: Cell| #![trigger g.bits(c)] g.in_bounds(c) implies {
        &&& c.1 == 0 ==> !g.open(c, N_BIT)
        &&& c.0 == g.width - 1 ==> !g.open(c, E_BIT)
        &&& c.1 == g.height - 1 ==> !g.open(c, S_BIT)
        &&& c.0 == 0 ==> !g.open(c, W_BIT)
    } by {
        lemma_idx(g, c, c);
        lemma_all_bits(1);
        lemma_all_bits(2);
        lemma_all_bits(4);
        lemma_all_bits(8);
    }
}

/// Which walls are absent after carving: exactly those absent before plus the two carved.
pub proof fn lemma_carve_open(g: GridView, c: Cell, d: int, a: Cell, b: u8)
    requires
        g.wf(),
        0 <= d < 4,
        g.in_bounds(c),
        g.in_bounds(nbr(c, d)),
        g.in_bounds(a),
        is_wall_bit(b),
    ensures
        carved(g, c, d).open(a, b) == (g.open(a, b) || (a == c && b == dir_bit(d)) || (a == nbr(
            c,
            d,
        ) && b == dir_bit(opposite(d)))),
        carved(g, c, d).wf(),
{
    let n = nbr(c, d);
    lemma_dirs(c, d);
    lemma_idx(g, c, n);
    lemma_idx(g, n, c);
    lemma_idx(g, a, c);
    lemma_idx(g, a, n);
    if a == c {
        lemma_clear_bit(g.cells[g.idx(c)], dir_bit(d), b);
    } else if a == n {
        lemma_clear_bit(g.cells[g.idx(n)], dir_bit(opposite(d)), b);
    }
}

/// Carving keeps every passage, opens the two-way passage between `c` and its neighbour,
/// opens nothing else, and keeps two-way passages, a closed boundary and wall-only bits.
pub proof fn lemma_carve(g: GridView, c: Cell, d: int)
    requires
        g.wf(),
        0 <= d < 4,
        g.in_bounds(c),
        g.in_bounds(nbr(c, d)),
    ensures
        carved(g, c, d).wf(),
        carved(g, c, d).width == g.width,
        carved(g, c, d).height == g.height,
        forall|a: Cell, b: Cell| #[trigger] g.step(a, b) ==> carved(g, c, d).step(a, b),
        forall|a: Cell, b: Cell|
            #[trigger] carved(g, c, d).step(a, b) ==> g.step(a, b) || (a == c && b == nbr(c, d))
                || (a == nbr(c, d) && b == c),
        carved(g, c, d).step(c, nbr(c, d)),
        carved(g, c, d).step(nbr(c, d), c),
        g.symmetric() ==> carved(g, c, d).symmetric(),
        g.border_closed() ==> carved(g, c, d).border_closed(),
        g.only_wall_bits() ==> carved(g, c, d).only_wall_bits(),
{
    let g2 = carved(g, c, d);
    let n = nbr(c, d);
    lemma_dirs(c, d);
    lemma_carve_open(g, c, d, c, dir_bit(d));
    lemma_carve_open(g, c, d, n, dir_bit(opposite(d)));
    assert forall|a: Cell, b: Cell| #[trigger] g.step(a, b) implies g2.step(a, b) by {
        let e = lemma_step_has_dir(g, a, b);
        lemma_dirs(a, e);
        lemma_carve_open(g, c, d, a, dir_bit(e));
        lemma_step_dir(g2, a, e);
    }
    assert forall|a: Cell, b: Cell| #[trigger] g2.step(a, b) implies g.step(a, b) || (a == c && b
        == n) || (a == n && b == c) by {
        let e = lemma_step_has_dir(g2, a, b);
        lemma_dirs(a, e);
        lemma_carve_open(g, c, d, a, dir_bit(e));
        lemma_step_dir(g, a, e);
    }
    lemma_step_dir(g2, c, d);
    lemma_step_dir(g2, n, opposite(d));
    if g.symmetric() {
        assert forall|a: Cell, b: Cell| #[trigger] g2.step(a, b) implies g2.step(b, a) by {
            if g.step(a, b) {
                assert(g.step(b, a));
            }
        }
    }
    if g.border_closed() {
        assert forall|a: Cell| #![trigger g2.bits(a)] g2.in_bounds(a) implies {
            &&& a.1 == 0 ==> !g2.open(a, N_BIT)
            &&& a.0 == g2.width - 1 ==> !g2.open(a, E_BIT)
            &&& a.1 == g2.height - 1 ==> !g2.open(a, S_BIT)
            &&& a.0 == 0 ==> !g2.open(a, W_BIT)
        } by {
            assert(g.bits(a) == g.bits(a));
            lemma_carve_open(g, c, d, a, N_BIT);
            lemma_carve_open(g, c, d, a, E_BIT);
            lemma_carve_open(g, c, d, a, S_BIT);
            lemma_carve_open(g, c, d, a, W_BIT);
        }
    }
    if g.only_wall_bits() {
        lemma_idx(g, c, n);
        lemma_idx(g, n, c);
        assert forall|i: int| 0 <= i < g2.cells.len() implies #[trigger] g2.cells[i] <= ALL_BITS by {
            if i == g.idx(c) {
                lemma_clear_bit(g.cells[g.idx(c)], dir_bit(d), 1);
            } else if i == g.idx(n) {
                lemma_clear_bit(g.cells[g.idx(n)], dir_bit(opposite(d)), 1);
            }
        }
    }
}

/// Walks survive carving.
pub proof fn lemma_carve_keeps_walk(g: GridView, c: Cell, d: int, s: Cell, v: Cell, k: nat)
    requires
        g.wf(),
        0 <= d < 4,
        g.in_bounds(c),
        g.in_bounds(nbr(c, d)),
        g.walk(s, v, k),
    ensures
        carved(g, c, d).walk(s, v, k),
{
    lemma_carve(g, c, d);
    lemma_walk_mono(g, carved(g, c, d), s, v, k);
}

} // verus!
