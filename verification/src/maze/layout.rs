//! Start / exit placement on a rectangular orthogonal maze.
use vstd::prelude::*;

use super::grid::{lemma_idx, lemma_shortest_is_distance, Cell, GridView};
use super::solvability::{bfs_distances, cell_of, exact_distances};
use super::Maze;

verus! {

/// The middle index of `0..n` rounding down, and `0` for an empty range.
pub open spec fn center_index(n: int) -> int {
    if n == 0 {
        0
    } else {
        (n - 1) / 2
    }
}

/// Approximate **center** cell (integer indices). For even sizes, picks the cell left/up of
/// the geometric center.
pub fn center_cell(width: usize, height: usize) -> (c: (usize, usize))
    ensures
        c.0 == center_index(width as int),
        c.1 == center_index(height as int),
{
    ((width.saturating_sub(1)) / 2, (height.saturating_sub(1)) / 2)
}

/// The cell lies on the outer ring of a `width` × `height` grid.
pub open spec fn on_perimeter(width: int, height: int, c: Cell) -> bool {
    c.0 == 0 || c.1 == 0 || c.0 + 1 == width || c.1 + 1 == height
}

pub fn is_perimeter(width: usize, height: usize, x: usize, y: usize) -> (r: bool)
    requires
        x < usize::MAX,
        y < usize::MAX,
    ensures
        r == on_perimeter(width as int, height as int, (x as int, y as int)),
{
    x == 0 || y == 0 || x + 1 == width || y + 1 == height
}

/// `c` can serve as the exit for `start`: on the perimeter, not the start, reachable.
pub open spec fn exit_candidate(g: GridView, start: Cell, c: Cell) -> bool {
    &&& g.in_bounds(c)
    &&& on_perimeter(g.width as int, g.height as int, c)
    &&& c != start
    &&& g.reachable(start, c)
}

/// `a` comes before `b` in row-major order.
pub open spec fn row_major_before(a: Cell, b: Cell) -> bool {
    a.1 < b.1 || (a.1 == b.1 && a.0 < b.0)
}

/// `e` is the candidate farthest from `start`, the first in row-major order among equally
/// far ones.
pub open spec fn farthest_exit(g: GridView, start: Cell, e: Cell) -> bool {
    &&& exit_candidate(g, start, e)
    &&& forall|c: Cell|
        #[trigger] exit_candidate(g, start, c) ==> g.distance(start, c) <= g.distance(start, e) && (
        row_major_before(c, e) ==> g.distance(start, c) < g.distance(start, e))
}

/// The exit used when no perimeter cell other than `start` is reachable: a corner other than
/// the start — the top-left one, or the bottom-right one when the start is the top-left
/// corner — and the top-left corner only when the grid has no second cell.
pub open spec fn fallback_exit(width: int, height: int, start: Cell) -> Cell {
    if start != (0int, 0int) {
        (0, 0)
    } else if width >= 1 && height >= 1 && (width > 1 || height > 1) {
        (width - 1, height - 1)
    } else {
        (0, 0)
    }
}

/// In a grid of at least two cells the fallback exit is a perimeter cell of the grid other
/// than the start.
pub proof fn lemma_fallback_exit_not_start(width: int, height: int, start: Cell)
    requires
        width >= 1,
        height >= 1,
        width > 1 || height > 1,
    ensures
        fallback_exit(width, height, start) != start,
        0 <= fallback_exit(width, height, start).0 < width,
        0 <= fallback_exit(width, height, start).1 < height,
        on_perimeter(width, height, fallback_exit(width, height, start)),
{
}

/// Cells before `(x, y)` in row-major order.
spec fn scanned(c: Cell, x: int, y: int) -> bool {
    c.1 < y || (c.1 == y && c.0 < x)
}

/// The scan state: `best` is the farthest candidate seen so far with its distance.
spec fn scan_inv(
    g: GridView,
    s: Cell,
    dist: Seq<usize>,
    best: Option<(usize, (usize, usize))>,
    x: int,
    y: int,
) -> bool {
    &&& exact_distances(g, s, dist)
    &&& match best {
        None => forall|c: Cell| #[trigger] exit_candidate(g, s, c) ==> !scanned(c, x, y),
        Some((bd, bc)) => {
            &&& exit_candidate(g, s, cell_of(bc))
            &&& scanned(cell_of(bc), x, y)
            &&& bd == g.distance(s, cell_of(bc))
            &&& forall|c: Cell|
                #[trigger] exit_candidate(g, s, c) && scanned(c, x, y) ==> g.distance(s, c) <= bd
                    && (row_major_before(c, cell_of(bc)) ==> g.distance(s, c) < bd)
        },
    }
}

/// The scan state after looking at cell `c`.
spec fn scan_update(
    g: GridView,
    s: Cell,
    dist: Seq<usize>,
    b0: Option<(usize, (usize, usize))>,
    c: (usize, usize),
) -> Option<(usize, (usize, usize))> {
    if exit_candidate(g, s, cell_of(c)) {
        let d = dist[g.idx(cell_of(c))];
        match b0 {
            None => Some((d, c)),
            Some((bd, bc)) => if d > bd {
                Some((d, c))
            } else {
                b0
            },
        }
    } else {
        b0
    }
}

proof fn lemma_scan_step(
    g: GridView,
    s: Cell,
    dist: Seq<usize>,
    b0: Option<(usize, (usize, usize))>,
    x: usize,
    y: usize,
)
    requires
        scan_inv(g, s, dist, b0, x as int, y as int),
        x < g.width,
        y < g.height,
    ensures
        scan_inv(g, s, dist, scan_update(g, s, dist, b0, (x, y)), x as int + 1, y as int),
{
    let c = (x as int, y as int);
    let b1 = scan_update(g, s, dist, b0, (x, y));
    lemma_idx(g, c, c);
    lemma_dist_entry(g, s, dist, c);
    assert(cell_of((x, y)) == c);
    match b1 {
        None => {
            assert forall|cc: Cell| #[trigger] exit_candidate(g, s, cc) implies !scanned(
                cc,
                x as int + 1,
                y as int,
            ) by {
                if cc != c {
                    assert(!scanned(cc, x as int, y as int));
                }
            }
        },
        Some((bd, bc)) => {
            assert forall|cc: Cell| #[trigger] exit_candidate(g, s, cc) && scanned(
                cc,
                x as int + 1,
                y as int,
            ) implies g.distance(s, cc) <= bd && (row_major_before(cc, cell_of(bc))
                ==> g.distance(s, cc) < bd) by {
                if cc != c {
                    assert(scanned(cc, x as int, y as int));
                    match b0 {
                        None => {},
                        Some((bd0, bc0)) => {
                            assert(g.distance(s, cc) <= bd0);
                        },
                    }
                } else {
                    match b0 {
                        None => {},
                        Some((bd0, bc0)) => {
                            assert(scanned(cell_of(bc0), x as int, y as int));
                        },
                    }
                }
            }
        },
    }
}

/// A finite entry of an exact distance table is the distance.
proof fn lemma_dist_entry(g: GridView, s: Cell, dist: Seq<usize>, c: Cell)
    requires
        exact_distances(g, s, dist),
        g.in_bounds(c),
    ensures
        dist[g.idx(c)] != usize::MAX <==> g.reachable(s, c),
        dist[g.idx(c)] != usize::MAX ==> dist[g.idx(c)] == g.distance(s, c),
{
    assert(g.idx(c) == g.idx(c));
    if dist[g.idx(c)] != usize::MAX {
        lemma_shortest_is_distance(g, s, c, dist[g.idx(c)] as nat);
    }
}

/// Pick a **single exit** on the outer edge: among perimeter cells, choose one **farthest**
/// from `start` (by maze graph distance). Skips `start` if it lies on the perimeter; when no
/// other perimeter cell is reachable, a corner different from `start` is returned (the only
/// cell of a 1 × 1 grid being the exception).
pub fn exit_farthest_on_perimeter(maze: &Maze, start: (usize, usize)) -> (e: (usize, usize))
    requires
        maze.wf(),
    ensures
        (exists|c: Cell| #[trigger] exit_candidate(maze@, cell_of(start), c)) ==> farthest_exit(
            maze@,
            cell_of(start),
            cell_of(e),
        ),
        !(exists|c: Cell| #[trigger] exit_candidate(maze@, cell_of(start), c)) ==> cell_of(e)
            == fallback_exit(maze@.width as int, maze@.height as int, cell_of(start)),
{
    let ghost g = maze@;
    let ghost s = cell_of(start);
    let w = maze.width();
    let h = maze.height();
    let dist = bfs_distances(maze, start);
    let n = dist.len();
    let mut best: Option<(usize, (usize, usize))> = None;
    let mut y: usize = 0;
    while y < h
        invariant
            g == maze@,
            w == g.width,
            h == g.height,
            y <= h,
            n == w * h,
            s == cell_of(start),
            scan_inv(g, s, dist@, best, 0, y as int),
        decreases h - y,
    {
        let mut x: usize = 0;
        while x < w
            invariant
                g == maze@,
                w == g.width,
                h == g.height,
                y < h,
                x <= w,
                n == w * h,
                s == cell_of(start),
                scan_inv(g, s, dist@, best, x as int, y as int),
            decreases w - x,
        {
            let ghost c = (x as int, y as int);
            let ghost b0 = best;
            proof {
                lemma_idx(g, c, c);
                lemma_dist_entry(g, s, dist@, c);
            }
            assert(cell_of((x, y)) == c);
            if !is_perimeter(w, h, x, y) {
                assert(!exit_candidate(g, s, c));
            } else if x == start.0 && y == start.1 {
                assert(!exit_candidate(g, s, c));
            } else {
                let d = dist[y * w + x];
                assert(d == dist@[g.idx(c)]);
                if d == usize::MAX {
                    assert(!exit_candidate(g, s, c));
                } else {
                    assert(exit_candidate(g, s, c));
                    match best {
                        None => best = Some((d, (x, y))),
                        Some((bd, _)) => {
                            if d > bd {
                                best = Some((d, (x, y)));
                            }
                        },
                    }
                }
            }
            proof {
                assert(best == scan_update(g, s, dist@, b0, (x, y)));
                lemma_scan_step(g, s, dist@, b0, x, y);
            }
            x += 1;
        }
        proof {
            match best {
                None => {
                    assert forall|cc: Cell| #[trigger] exit_candidate(g, s, cc) implies !scanned(
                        cc,
                        0,
                        y as int + 1,
                    ) by {
                        assert(!scanned(cc, w as int, y as int));
                    }
                },
                Some((bd, bc)) => {
                    assert forall|cc: Cell| #[trigger] exit_candidate(g, s, cc) && scanned(
                        cc,
                        0,
                        y as int + 1,
                    ) implies g.distance(s, cc) <= bd && (row_major_before(cc, cell_of(bc))
                        ==> g.distance(s, cc) < bd) by {
                        assert(scanned(cc, w as int, y as int));
                    }
                },
            }
        }
        y += 1;
    }
    if let Some((_, c)) = best {
        proof {
            assert forall|cc: Cell| #[trigger] exit_candidate(g, s, cc) implies g.distance(s, cc)
                <= g.distance(s, cell_of(c)) && (row_major_before(cc, cell_of(c)) ==> g.distance(
                s,
                cc,
            ) < g.distance(s, cell_of(c))) by {
                assert(scanned(cc, 0, h as int));
            }
        }
        return c;
    }
    proof {
        assert forall|cc: Cell| !#[trigger] exit_candidate(g, s, cc) by {
            if exit_candidate(g, s, cc) {
                assert(scanned(cc, 0, h as int));
            }
        }
    }
    // Degenerate tiny maze: fall back to a corner different from start.
    if start.0 != 0 || start.1 != 0 {
        (0, 0)
    } else if w >= 1 && h >= 1 && (w > 1 || h > 1) {
        (w - 1, h - 1)
    } else {
        (0, 0)
    }
}

} // verus!
