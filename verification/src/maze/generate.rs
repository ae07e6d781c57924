//! Recursive-backtracking (depth-first) maze generation.
use vstd::prelude::*;

use super::carve::{all_walls, carved, lemma_all_walls, lemma_carve, lemma_carve_keeps_walk, lemma_dirs};
use super::grid::{
    dir_bit, lemma_all_bits, lemma_closed_set_covers, lemma_connected_from_root, lemma_idx,
    lemma_walk_extend, lemma_walk_zero, nbr, opposite, Cell, GridView, ALL_BITS,
};
use super::passages::{
    lemma_all_marked, lemma_all_walls_no_passages, lemma_carve_adds_passage, passage_count,
};
use super::solvability::cell_of;
use super::{Maze, Walls};
use crate::counting::{index_set, lemma_index_set_bounds, lemma_index_set_mark, lemma_index_set_strict};
use crate::random::random_below;

verus! {

/// Wall masks `(here, there)` to clear when carving from a cell in direction `dir`
/// (0 = north, 1 = east, 2 = south, 3 = west): the wall on that side, and the facing wall
/// of the neighbour.
pub fn wall_masks_for_direction(dir: usize) -> (r: (u8, u8))
    requires
        dir < 4,
    ensures
        r.0 == dir_bit(dir as int),
        r.1 == dir_bit(opposite(dir as int)),
{
    match dir {
        0 => (Walls::NORTH, Walls::SOUTH),
        1 => (Walls::EAST, Walls::WEST),
        2 => (Walls::SOUTH, Walls::NORTH),
        _ => (Walls::WEST, Walls::EAST),
    }
}

/// Direction `v` occurs in `d`.
pub open spec fn lists_dir(d: [usize; 4], v: int) -> bool {
    exists|j: int| 0 <= j < 4 && #[trigger] d[j] == v
}

/// The four directions in a random order (a Fisher–Yates shuffle).
pub fn shuffle_dirs() -> (d: [usize; 4])
    ensures
        forall|j: int| 0 <= j < 4 ==> #[trigger] d[j] < 4,
        forall|v: int| 0 <= v < 4 ==> #[trigger] lists_dir(d, v),
{
    let mut d = [0usize, 1, 2, 3];
    assert(d[0] == 0 && d[1] == 1 && d[2] == 2 && d[3] == 3);
    assert(lists_dir(d, 0) && lists_dir(d, 1) && lists_dir(d, 2) && lists_dir(d, 3));
    let mut i: usize = 3;
    while i >= 1
        invariant
            i <= 3,
            forall|j: int| 0 <= j < 4 ==> #[trigger] d[j] < 4,
            forall|v: int| 0 <= v < 4 ==> #[trigger] lists_dir(d, v),
        decreases i,
    {
        let j = random_below(i + 1);
        let ghost d0 = d;
        let a = d[i];
        let b = d[j];
        d.set(i, b);
        d.set(j, a);
        assert forall|v: int| 0 <= v < 4 implies #[trigger] lists_dir(d, v) by {
            assert(lists_dir(d0, v));
            let p = choose|p: int| 0 <= p < 4 && #[trigger] d0[p] == v;
            if p == i {
                assert(d[j as int] == v);
            } else if p == j {
                assert(d[i as int] == v);
            } else {
                assert(d[p] == v);
            }
        }
        i = i - 1;
    }
    d
}

/// The in-grid neighbour of `(x, y)` in direction `dir`, if any.
pub(crate) fn grid_neighbor(x: usize, y: usize, dir: usize, w: usize, h: usize) -> (r: Option<
    (usize, usize),
>)
    requires
        dir < 4,
        x < w,
        y < h,
    ensures
        r.is_some() <==> (0 <= nbr((x as int, y as int), dir as int).0 < w && 0 <= nbr(
            (x as int, y as int),
            dir as int,
        ).1 < h),
        r matches Some(v) ==> cell_of(v) == nbr((x as int, y as int), dir as int),
{
    if dir == 0 {
        if y > 0 {
            return Some((x, y - 1));
        }
    } else if dir == 1 {
        if x + 1 < w {
            return Some((x + 1, y));
        }
    } else if dir == 2 {
        if y + 1 < h {
            return Some((x, y + 1));
        }
    } else {
        if x > 0 {
            return Some((x - 1, y));
        }
    }
    None
}

/// Removes the wall between `(x, y)` and its neighbour in direction `dir`, on both sides.
pub(crate) fn carve_passage(cells: &mut Vec<u8>, w: usize, h: usize, x: usize, y: usize, dir: usize)
    requires
        dir < 4,
        x < w,
        y < h,
        old(cells)@.len() == w * h,
        0 <= nbr((x as int, y as int), dir as int).0 < w,
        0 <= nbr((x as int, y as int), dir as int).1 < h,
    ensures
        (GridView { width: w as nat, height: h as nat, cells: final(cells)@ }) == carved(
            GridView { width: w as nat, height: h as nat, cells: old(cells)@ },
            (x as int, y as int),
            dir as int,
        ),
{
    let _len = cells.len();
    let ghost g = GridView { width: w as nat, height: h as nat, cells: cells@ };
    let ghost c = (x as int, y as int);
    let ghost n = nbr(c, dir as int);
    proof {
        lemma_idx(g, c, n);
        lemma_idx(g, n, c);
        lemma_dirs(c, dir as int);
    }
    let (nx, ny) = match grid_neighbor(x, y, dir, w, h) {
        Some(v) => v,
        None => (x, y),
    };
    let (here, there) = wall_masks_for_direction(dir);
    let i = y * w + x;
    let ni = ny * w + nx;
    let a = cells[i];
    cells.set(i, a & !here);
    let b = cells[ni];
    cells.set(ni, b & !there);
    proof {
        assert(b == g.cells[g.idx(n)]);
        assert(cells@ =~= carved(g, c, dir as int).cells);
    }
}

pub open spec fn visited_pred() -> spec_fn(bool) -> bool {
    |b: bool| b
}

/// `c` lies in the grid and is listed on the stack.
spec fn on_stack(stack: Seq<(usize, usize)>, c: Cell) -> bool {
    exists|i: int| 0 <= i < stack.len() && cell_of(#[trigger] stack[i]) == c
}

/// Every in-grid neighbour of `c` is marked.
spec fn nbrs_marked(g: GridView, marks: Seq<bool>, c: Cell) -> bool {
    forall|d: int|
        0 <= d < 4 && #[trigger] g.in_bounds(nbr(c, d)) ==> marks[g.idx(nbr(c, d))]
}

/// The state of the carve: the layout keeps its shape; every marked cell is reachable from
/// the corner; a marked cell off the stack has all neighbours marked; an unmarked cell still
/// has all four walls.
spec fn dfs_inv(g: GridView, marks: Seq<bool>, stack: Seq<(usize, usize)>) -> bool {
    &&& g.wf()
    &&& g.width >= 1
    &&& g.height >= 1
    &&& g.width * g.height <= usize::MAX
    &&& marks.len() == g.width * g.height
    &&& g.symmetric()
    &&& g.border_closed()
    &&& g.only_wall_bits()
    &&& marks[0]
    &&& forall|i: int|
        0 <= i < stack.len() ==> g.in_bounds(cell_of(#[trigger] stack[i])) && marks[g.idx(
            cell_of(stack[i]),
        )]
    &&& forall|c: Cell|
        #![trigger g.idx(c)]
        g.in_bounds(c) && marks[g.idx(c)] ==> g.reachable((0, 0), c)
    &&& forall|c: Cell|
        #![trigger g.idx(c)]
        g.in_bounds(c) && marks[g.idx(c)] ==> on_stack(stack, c) || nbrs_marked(g, marks, c)
    &&& forall|c: Cell| #![trigger g.bits(c)] g.in_bounds(c) && !marks[g.idx(c)] ==> g.bits(c) == ALL_BITS
}

/// Carving from the top cell to an unmarked neighbour, marking and pushing it, keeps the
/// state.
proof fn lemma_dfs_carve(
    g: GridView,
    marks: Seq<bool>,
    stack: Seq<(usize, usize)>,
    c: Cell,
    d: int,
    nv: (usize, usize),
)
    requires
        dfs_inv(g, marks, stack),
        g.in_bounds(c),
        marks[g.idx(c)],
        0 <= d < 4,
        cell_of(nv) == nbr(c, d),
        g.in_bounds(nbr(c, d)),
        !marks[g.idx(nbr(c, d))],
    ensures
        dfs_inv(carved(g, c, d), marks.update(g.idx(nbr(c, d)), true), stack.push(nv)),
        passage_count(carved(g, c, d)) == passage_count(g) + 1,
{
    let n = nbr(c, d);
    let g2 = carved(g, c, d);
    let m2 = marks.update(g.idx(n), true);
    let s2 = stack.push(nv);
    lemma_carve(g, c, d);
    lemma_idx(g, n, n);
    lemma_idx(g, c, c);
    lemma_dirs(c, d);
    assert(g.bits(n) == ALL_BITS);
    lemma_all_bits(dir_bit(opposite(d)));
    lemma_carve_adds_passage(g, c, d);
    assert forall|x: Cell| #![trigger g2.bits(x)] g2.in_bounds(x) && !m2[g2.idx(x)] implies g2.bits(x)
        == ALL_BITS by {
        lemma_idx(g, x, n);
        lemma_idx(g, x, c);
        assert(g2.idx(x) == g.idx(x));
        assert(x != n);
        assert(!marks[g.idx(x)]);
        assert(x != c);
        assert(g.bits(x) == ALL_BITS);
        assert(g2.cells[g.idx(x)] == g.cells[g.idx(x)]);
    }
    assert(g2.idx(n) == g.idx(n));
    assert forall|x: Cell| g.in_bounds(x) implies #[trigger] g2.idx(x) == g.idx(x) by {}
    // the corner stays marked
    lemma_idx(g, (0, 0), n);
    assert(m2[0]);
    assert forall|i: int| 0 <= i < s2.len() implies g2.in_bounds(cell_of(#[trigger] s2[i]))
        && m2[g2.idx(cell_of(s2[i]))] by {
        if i < stack.len() {
            assert(s2[i] == stack[i]);
            lemma_idx(g, cell_of(stack[i]), n);
        }
    }
    assert forall|x: Cell| #![trigger g2.idx(x)] g2.in_bounds(x) && m2[g2.idx(x)] implies g2.reachable(
        (0, 0),
        x,
    ) by {
        lemma_idx(g, x, n);
        if x == n {
            assert(g.reachable((0, 0), c));
            let k = choose|k: nat| #[trigger] g.walk((0, 0), c, k);
            lemma_carve_keeps_walk(g, c, d, (0, 0), c, k);
            lemma_walk_extend(g2, (0, 0), c, n, k);
        } else {
            assert(g.idx(x) == g.idx(x));
            assert(g.reachable((0, 0), x));
            let k = choose|k: nat| #[trigger] g.walk((0, 0), x, k);
            lemma_carve_keeps_walk(g, c, d, (0, 0), x, k);
        }
    }
    assert forall|x: Cell| #![trigger g2.idx(x)] g2.in_bounds(x) && m2[g2.idx(x)] implies on_stack(
        s2,
        x,
    ) || nbrs_marked(g2, m2, x) by {
        lemma_idx(g, x, n);
        if x == n {
            assert(s2[stack.len() as int] == nv);
        } else {
            assert(g.idx(x) == g.idx(x));
            if on_stack(stack, x) {
                let i = choose|i: int| 0 <= i < stack.len() && cell_of(#[trigger] stack[i]) == x;
                assert(s2[i] == stack[i]);
            } else {
                assert(nbrs_marked(g, marks, x));
                assert forall|e: int| 0 <= e < 4 && #[trigger] g2.in_bounds(nbr(x, e)) implies m2[g2.idx(
                    nbr(x, e),
                )] by {
                    assert(g.in_bounds(nbr(x, e)));
                    lemma_idx(g, nbr(x, e), n);
                }
            }
        }
    }
}

/// Dropping the top cell once all its neighbours are marked keeps the state.
proof fn lemma_dfs_pop(g: GridView, marks: Seq<bool>, stack: Seq<(usize, usize)>)
    requires
        dfs_inv(g, marks, stack),
        stack.len() > 0,
        nbrs_marked(g, marks, cell_of(stack.last())),
    ensures
        dfs_inv(g, marks, stack.drop_last()),
{
    let s2 = stack.drop_last();
    assert forall|i: int| 0 <= i < s2.len() implies g.in_bounds(cell_of(#[trigger] s2[i]))
        && marks[g.idx(cell_of(s2[i]))] by {
        assert(s2[i] == stack[i]);
    }
    assert forall|x: Cell| #![trigger g.idx(x)] g.in_bounds(x) && marks[g.idx(x)] implies on_stack(
        s2,
        x,
    ) || nbrs_marked(g, marks, x) by {
        if on_stack(stack, x) && x != cell_of(stack.last()) {
            let i = choose|i: int| 0 <= i < stack.len() && cell_of(#[trigger] stack[i]) == x;
            assert(s2[i] == stack[i]);
        }
    }
}

/// With the stack empty every cell is marked, so every cell is reachable from the corner and,
/// passages being two-way, from every cell.
proof fn lemma_dfs_done(g: GridView, marks: Seq<bool>, stack: Seq<(usize, usize)>)
    requires
        dfs_inv(g, marks, stack),
        stack.len() == 0,
    ensures
        g.connected_maze(),
        forall|c: Cell| g.in_bounds(c) ==> #[trigger] marks[g.idx(c)],
{
    let p = |c: Cell| marks[g.idx(c)];
    lemma_idx(g, (0, 0), (0, 0));
    assert forall|c: Cell, d: int|
        0 <= c.0 < g.width && 0 <= c.1 < g.height && 0 <= d < 4 && 0 <= nbr(c, d).0 < g.width && 0
            <= nbr(c, d).1 < g.height && #[trigger] p(c) implies #[trigger] p(nbr(c, d)) by {
        assert(g.idx(c) == g.idx(c));
        assert(!on_stack(stack, c));
        assert(g.in_bounds(nbr(c, d)));
    }
    lemma_closed_set_covers(g.width as int, g.height as int, p, (0, 0));
    assert forall|c: Cell| g.in_bounds(c) implies #[trigger] g.reachable((0, 0), c) by {
        assert(p(c));
        assert(g.idx(c) == g.idx(c));
    }
    assert forall|c: Cell| g.in_bounds(c) implies #[trigger] marks[g.idx(c)] by {
        assert(p(c));
    }
    lemma_connected_from_root(g, (0, 0));
}

pub fn generate_recursive_backtracking(width: usize, height: usize) -> (m: Maze)
    requires
        width >= 1,
        height >= 1,
        width * height <= usize::MAX,
    ensures
        m.wf(),
        m@.width == width,
        m@.height == height,
        m@.connected_maze(),
        passage_count(m@) + 1 == width * height,
{
    let n = width * height;
    let mut cells = vec![Walls::ALL; n];
    let mut visited = vec![false; n];
    let mut stack: Vec<(usize, usize)> = Vec::new();
    let ghost w = width as nat;
    let ghost h = height as nat;

    stack.push((0, 0));
    assert(n >= 1) by (nonlinear_arith)
        requires
            n == width * height,
            width >= 1,
            height >= 1,
    ;
    let ghost v0 = visited@;
    visited.set(0, true);
    proof {
        let g = GridView { width: w, height: h, cells: cells@ };
        assert(g.cells =~= all_walls(w, h).cells);
        assert(g == all_walls(w, h));
        lemma_all_walls(w, h);
        lemma_idx(g, (0, 0), (0, 0));
        assert(0 * (w as int) == 0) by (nonlinear_arith);
        assert(g.idx((0, 0)) == 0);
        lemma_walk_zero(g, (0, 0));
        assert forall|c: Cell| #![trigger g.idx(c)] g.in_bounds(c) && visited@[g.idx(c)] implies c
            == (0int, 0int) by {
            lemma_idx(g, c, (0, 0));
        }
        assert(cell_of(stack@[0]) == (0int, 0int));
        assert(on_stack(stack@, (0, 0)));
        assert(index_set(v0, visited_pred()) =~= Set::empty());
        lemma_index_set_mark(v0, visited_pred(), 0, true);
        lemma_index_set_bounds(visited@, visited_pred());
        lemma_all_walls_no_passages(w, h);
        assert forall|c: Cell| #![trigger g.bits(c)] g.in_bounds(c) && !visited@[g.idx(c)] implies g.bits(c)
            == ALL_BITS by {
            lemma_idx(g, c, c);
        }
    }

    while stack.len() > 0
        invariant
            w == width,
            h == height,
            n == width * height,
            cells@.len() == n,
            dfs_inv(GridView { width: w, height: h, cells: cells@ }, visited@, stack@),
            index_set(visited@, visited_pred()).len() <= n,
            passage_count(GridView { width: w, height: h, cells: cells@ }) + 1 == index_set(
                visited@,
                visited_pred(),
            ).len(),
        decreases 2 * (n - index_set(visited@, visited_pred()).len()) + stack@.len(),
    {
        let ghost g0 = GridView { width: w, height: h, cells: cells@ };
        let (x, y) = stack[stack.len() - 1];
        let ghost c = (x as int, y as int);
        proof {
            assert(cell_of(stack@[stack@.len() - 1]) == c);
            lemma_idx(g0, c, c);
        }
        let order = shuffle_dirs();
        let ghost mstart = 2 * (n - index_set(visited@, visited_pred()).len()) + stack@.len();
        let mut carved_one = false;
        let mut k: usize = 0;
        while k < 4 && !carved_one
            invariant
                w == width,
                h == height,
                n == width * height,
                cells@.len() == n,
                x < width,
                y < height,
                c == (x as int, y as int),
                g0.width == w,
                g0.height == h,
                g0.wf(),
                k <= 4,
                forall|j: int| 0 <= j < 4 ==> #[trigger] order[j] < 4,
                dfs_inv(GridView { width: w, height: h, cells: cells@ }, visited@, stack@),
                index_set(visited@, visited_pred()).len() <= n,
                passage_count(GridView { width: w, height: h, cells: cells@ }) + 1 == index_set(
                    visited@,
                    visited_pred(),
                ).len(),
                !carved_one ==> stack@.len() > 0 && cell_of(stack@.last()) == c && cells@ == g0.cells
                    && 2 * (n - index_set(visited@, visited_pred()).len()) + stack@.len() == mstart,
                !carved_one ==> forall|j: int|
                    0 <= j < k && #[trigger] g0.in_bounds(nbr(c, order[j] as int)) ==> visited@[g0.idx(
                        nbr(c, order[j] as int),
                    )],
                carved_one ==> 2 * (n - index_set(visited@, visited_pred()).len()) + stack@.len()
                    == mstart - 1,
            decreases 4 - k,
        {
            let dir = order[k];
            match grid_neighbor(x, y, dir, width, height) {
                None => {},
                Some((nx, ny)) => {
                    let ghost nb = nbr(c, dir as int);
                    assert(cell_of((nx, ny)) == nb);
                    assert(g0.in_bounds(nb));
                    proof {
                        lemma_idx(g0, nb, nb);
                    }
                    let ni = ny * width + nx;
                    if !visited[ni] {
                        let ghost g1 = GridView { width: w, height: h, cells: cells@ };
                        let ghost m1 = visited@;
                        let ghost s1 = stack@;
                        carve_passage(&mut cells, width, height, x, y, dir);
                        visited.set(ni, true);
                        stack.push((nx, ny));
                        proof {
                            lemma_dfs_carve(g1, m1, s1, c, dir as int, (nx, ny));
                            lemma_index_set_mark(m1, visited_pred(), g1.idx(nb), true);
                            lemma_index_set_strict(m1, visited_pred(), g1.idx(nb));
                            lemma_index_set_bounds(visited@, visited_pred());
                        }
                        carved_one = true;
                    }
                },
            }
            k += 1;
        }
        if !carved_one {
            proof {
                let g = GridView { width: w, height: h, cells: cells@ };
                assert forall|d: int| 0 <= d < 4 && #[trigger] g.in_bounds(nbr(c, d)) implies visited@[g.idx(
                    nbr(c, d),
                )] by {
                    assert(lists_dir(order, d));
                    let j = choose|j: int| 0 <= j < 4 && #[trigger] order[j] == d;
                    assert(g0.in_bounds(nbr(c, order[j] as int)));
                }
                lemma_dfs_pop(g, visited@, stack@);
            }
            stack.pop();
        }
    }
    proof {
        let g = GridView { width: w, height: h, cells: cells@ };
        lemma_dfs_done(g, visited@, stack@);
        lemma_all_marked(g, visited@, visited_pred());
    }
    Maze::new(width, height, cells)
}

} // verus!
