//! Stage geometry: the maze size of each stage and where its hint items lie.
use vstd::prelude::*;

use crate::maze::grid::{lemma_walk_zero, Cell, GridView};
use crate::maze::layout::{
    center_index, exit_candidate, fallback_exit, farthest_exit, on_perimeter,
};
use crate::maze::passages::passage_count;
use crate::maze::solvability::cell_of;
use crate::maze::{center_cell, exit_farthest_on_perimeter, shortest_path_len, Maze};
use crate::random::random_below;

verus! {

/// Columns of the stage-1 maze (and of the maze shown behind the menus).
pub const LOBBY_COLS: usize = 31;

/// Rows of the stage-1 maze.
pub const LOBBY_ROWS: usize = 21;

/// Columns of the small map used in developer test mode.
pub const DEV_MAP_COLS: usize = 11;

/// Rows of the small map used in developer test mode.
pub const DEV_MAP_ROWS: usize = 9;

/// Stage 1 is 31 × 21 and every later stage adds two cells to both sides; stage 0 counts as
/// stage 1.
pub open spec fn stage_dims(stage: int) -> (int, int) {
    let s = if stage < 1 {
        1
    } else {
        stage
    };
    (31 + 2 * (s - 1), 21 + 2 * (s - 1))
}

/// Normal mode: maze size for a given stage (stage 1 = 31×21; each stage adds 2 to both sides).
pub fn normal_maze_dims_for_stage(stage: usize) -> (r: (usize, usize))
    requires
        stage_dims(stage as int).0 <= usize::MAX,
    ensures
        r.0 == stage_dims(stage as int).0,
        r.1 == stage_dims(stage as int).1,
{
    let s: usize = if stage < 1 {
        1
    } else {
        stage
    };
    let add: usize = (s - 1) * 2;
    (LOBBY_COLS + add, LOBBY_ROWS + add)
}

/// `n - 1`, or `0` for `n == 0`.
pub open spec fn last_index(n: usize) -> usize {
    if n > 0 {
        (n - 1) as usize
    } else {
        0
    }
}

/// The eight places a hint may lie: the four corners and the middles of the four sides, in
/// the order they are tried.
pub open spec fn hint_candidates(cols: usize, rows: usize) -> Seq<(usize, usize)> {
    let mx = cols / 2;
    let my = rows / 2;
    let lx = last_index(cols);
    let ly = last_index(rows);
    seq![(0, 0), (mx, 0), (lx, 0), (0, my), (lx, my), (0, ly), (mx, ly), (lx, ly)]
}

/// The cells of `s` that lie in a `cols` × `rows` grid, each kept at its first occurrence.
pub open spec fn first_in_bounds(s: Seq<(usize, usize)>, cols: usize, rows: usize) -> Seq<
    (usize, usize),
>
    decreases s.len(),
{
    if s.len() == 0 {
        Seq::empty()
    } else {
        let prev = first_in_bounds(s.drop_last(), cols, rows);
        let c = s.last();
        if c.0 < cols && c.1 < rows && !prev.contains(c) {
            prev.push(c)
        } else {
            prev
        }
    }
}

/// `s` without the cells `a` and `b`, in order.
pub open spec fn without_cells(s: Seq<(usize, usize)>, a: (usize, usize), b: (usize, usize)) -> Seq<
    (usize, usize),
>
    decreases s.len(),
{
    if s.len() == 0 {
        Seq::empty()
    } else {
        let prev = without_cells(s.drop_last(), a, b);
        if s.last() != a && s.last() != b {
            prev.push(s.last())
        } else {
            prev
        }
    }
}

/// Where the hints of a stage lie: the candidate cells inside the grid, without repeats, and
/// without the start and the exit.
pub open spec fn stage_hint_cells(
    cols: usize,
    rows: usize,
    start: (usize, usize),
    exit: (usize, usize),
) -> Seq<(usize, usize)> {
    without_cells(first_in_bounds(hint_candidates(cols, rows), cols, rows), start, exit)
}

/// Whether `c` occurs among the first `k` entries of `v`.
fn occurs_in(v: &Vec<(usize, usize)>, c: (usize, usize)) -> (r: bool)
    ensures
        r == v@.contains(c),
{
    let mut k: usize = 0;
    while k < v.len()
        invariant
            k <= v.len(),
            forall|j: int| 0 <= j < k ==> v@[j] != c,
        decreases v.len() - k,
    {
        if v[k].0 == c.0 && v[k].1 == c.1 {
            assert(v@[k as int] == c);
            return true;
        }
        k = k + 1;
    }
    false
}

/// Hint spawn points: corners and mid-edges, deduplicated on small maps.
pub fn build_hint_cells(cols: usize, rows: usize) -> (out: Vec<(usize, usize)>)
    ensures
        out@ == first_in_bounds(hint_candidates(cols, rows), cols, rows),
{
    let mid_x = cols / 2;
    let mid_y = rows / 2;
    let last_x = cols.saturating_sub(1);
    let last_y = rows.saturating_sub(1);
    let candidates: [(usize, usize); 8] = [
        (0, 0),
        (mid_x, 0),
        (last_x, 0),
        (0, mid_y),
        (last_x, mid_y),
        (0, last_y),
        (mid_x, last_y),
        (last_x, last_y),
    ];
    let ghost cands = hint_candidates(cols, rows);
    assert(candidates@ == cands);
    let mut out: Vec<(usize, usize)> = Vec::new();
    let mut i: usize = 0;
    while i < 8
        invariant
            i <= 8,
            candidates@ == cands,
            cands.len() == 8,
            out@ == first_in_bounds(cands.take(i as int), cols, rows),
        decreases 8 - i,
    {
        let c = candidates[i];
        assert(cands.take(i + 1).drop_last() == cands.take(i as int));
        if c.0 < cols && c.1 < rows && !occurs_in(&out, c) {
            out.push(c);
        }
        i = i + 1;
    }
    assert(cands.take(8) == cands);
    out
}

/// One hint item of the current stage.
#[derive(Clone, Copy, Debug)]
pub struct HintItem {
    pub cell: (usize, usize),
    pub collected: bool,
}

/// `items` are uncollected hints lying on `cells`, one each, in order.
pub open spec fn fresh_items(items: Seq<HintItem>, cells: Seq<(usize, usize)>) -> bool {
    &&& items.len() == cells.len()
    &&& forall|i: int|
        0 <= i < items.len() ==> (#[trigger] items[i]).cell == cells[i] && !items[i].collected
}

/// The hint items of a fresh stage: one uncollected item on each hint cell, none on the start
/// or the exit.
pub fn hint_items_for_stage(
    cols: usize,
    rows: usize,
    start: (usize, usize),
    exit: (usize, usize),
) -> (items: Vec<HintItem>)
    ensures
        fresh_items(items@, stage_hint_cells(cols, rows, start, exit)),
{
    let cells = build_hint_cells(cols, rows);
    let ghost all = cells@;
    let mut items: Vec<HintItem> = Vec::new();
    let mut i: usize = 0;
    while i < cells.len()
        invariant
            i <= cells.len(),
            cells@ == all,
            fresh_items(items@, without_cells(all.take(i as int), start, exit)),
        decreases cells.len() - i,
    {
        let c = cells[i];
        assert(all.take(i + 1).drop_last() == all.take(i as int));
        if !(c.0 == start.0 && c.1 == start.1) && !(c.0 == exit.0 && c.1 == exit.1) {
            items.push(HintItem { cell: c, collected: false });
        }
        i = i + 1;
    }
    assert(all.take(i as int) == all);
    items
}

/// The player stands on `cell`: every uncollected hint there is picked up. Returns whether
/// one was (which opens the full map for a while).
pub fn collect_hints_at(hints: &mut Vec<HintItem>, cell: (usize, usize)) -> (picked: bool)
    ensures
        final(hints)@.len() == old(hints)@.len(),
        forall|i: int|
            0 <= i < old(hints)@.len() ==> (#[trigger] final(hints)@[i]).cell == old(hints)@[i].cell
                && final(hints)@[i].collected == (old(hints)@[i].collected || old(hints)@[i].cell
                == cell),
        picked == exists|i: int|
            0 <= i < old(hints)@.len() && (#[trigger] old(hints)@[i]).cell == cell && !old(
                hints,
            )@[i].collected,
{
    let ghost before = hints@;
    let mut picked = false;
    let mut i: usize = 0;
    while i < hints.len()
        invariant
            i <= hints@.len(),
            hints@.len() == before.len(),
            forall|j: int|
                0 <= j < i ==> (#[trigger] hints@[j]).cell == before[j].cell && hints@[j].collected
                    == (before[j].collected || before[j].cell == cell),
            forall|j: int| i <= j < hints@.len() ==> #[trigger] hints@[j] == before[j],
            picked == exists|j: int|
                0 <= j < i && (#[trigger] before[j]).cell == cell && !before[j].collected,
        decreases hints@.len() - i,
    {
        let h = hints[i];
        if !h.collected && h.cell.0 == cell.0 && h.cell.1 == cell.1 {
            hints[i] = HintItem { cell: h.cell, collected: true };
            picked = true;
        }
        assert(before[i as int] == h);
        i = i + 1;
    }
    picked
}

/// Restarting a stage puts every hint back.
pub fn reset_hints(hints: &mut Vec<HintItem>)
    ensures
        final(hints)@.len() == old(hints)@.len(),
        forall|i: int|
            0 <= i < old(hints)@.len() ==> (#[trigger] final(hints)@[i]).cell == old(hints)@[i].cell
                && !final(hints)@[i].collected,
{
    let ghost before = hints@;
    let mut i: usize = 0;
    while i < hints.len()
        invariant
            i <= hints@.len(),
            hints@.len() == before.len(),
            forall|j: int|
                0 <= j < i ==> (#[trigger] hints@[j]).cell == before[j].cell && !hints@[j].collected,
            forall|j: int| i <= j < hints@.len() ==> #[trigger] hints@[j] == before[j],
        decreases hints@.len() - i,
    {
        let h = hints[i];
        hints[i] = HintItem { cell: h.cell, collected: false };
        i = i + 1;
    }
}

/// Which generator built a maze.
#[derive(Clone, Copy, Debug, PartialEq, Eq, Structural)]
pub enum MazeGenerator {
    /// Randomized Prim.
    Prim,
    /// Recursive backtracking (depth first).
    Dfs,
}

/// Everything a stage needs besides drawing: the maze, where the player starts and where the
/// exit is, the length of the shortest way between them, and the hint items.
#[derive(Debug)]
pub struct StageLayout {
    pub maze: Maze,
    pub generator: MazeGenerator,
    pub start: (usize, usize),
    pub exit: (usize, usize),
    /// Steps on a shortest way from the start to the exit, if there is one.
    pub path_steps: Option<usize>,
    pub hints: Vec<HintItem>,
}

/// `steps` is what `shortest_path_len` says for the way from `start` to `exit`.
pub open spec fn shortest_steps(g: GridView, start: Cell, exit: Cell, steps: Option<usize>) -> bool {
    &&& steps.is_some() <==> g.reachable(start, exit)
    &&& steps matches Some(k) ==> g.shortest(start, exit, k as nat)
}

/// A connected maze of at least two cells always has a perimeter cell, other than the start,
/// that the start reaches: a corner.
pub proof fn lemma_exit_candidate_exists(g: GridView, s: Cell)
    requires
        g.connected_maze(),
        g.in_bounds(s),
        g.width * g.height >= 2,
    ensures
        exists|c: Cell| #[trigger] exit_candidate(g, s, c),
{
    if s != (0int, 0int) {
        let c = (0int, 0int);
        assert(g.in_bounds(c));
        assert(g.reachable(s, c));
        assert(exit_candidate(g, s, c));
    } else {
        let c = (g.width - 1, g.height - 1);
        if g.width == 1 && g.height == 1 {
            assert(g.width * g.height == 1);
        }
        assert(c != s);
        assert(g.in_bounds(c));
        assert(g.reachable(s, c));
        assert(on_perimeter(g.width as int, g.height as int, c));
        assert(exit_candidate(g, s, c));
    }
}

/// The stage around a given maze: its shortest start-to-exit length and its hint items.
pub fn layout_for_maze(
    maze: Maze,
    generator: MazeGenerator,
    start: (usize, usize),
    exit: (usize, usize),
) -> (l: StageLayout)
    requires
        maze.wf(),
    ensures
        l.maze == maze,
        l.generator == generator,
        l.start == start,
        l.exit == exit,
        shortest_steps(maze@, cell_of(start), cell_of(exit), l.path_steps),
        fresh_items(l.hints@, stage_hint_cells(maze@.width as usize, maze@.height as usize, start, exit)),
{
    let path_steps = shortest_path_len(&maze, start, exit);
    let hints = hint_items_for_stage(maze.width(), maze.height(), start, exit);
    StageLayout { maze, generator, start, exit, path_steps, hints }
}

/// A fresh stage of `cols` × `rows`: a perfect maze from one of the two generators (picked at
/// random, even odds), the start at the centre, the exit on the perimeter farthest from it,
/// the shortest way between them, and the hints.
pub fn build_stage(cols: usize, rows: usize) -> (l: StageLayout)
    requires
        cols >= 1,
        rows >= 1,
        cols * rows <= usize::MAX,
    ensures
        l.maze.wf(),
        l.maze@.width == cols,
        l.maze@.height == rows,
        l.maze@.connected_maze(),
        passage_count(l.maze@) + 1 == cols * rows,
        l.start == (center_index(cols as int) as usize, center_index(rows as int) as usize),
        cols * rows >= 2 ==> farthest_exit(l.maze@, cell_of(l.start), cell_of(l.exit)),
        cols * rows == 1 ==> l.exit == (0usize, 0usize),
        l.maze@.reachable(cell_of(l.start), cell_of(l.exit)),
        shortest_steps(l.maze@, cell_of(l.start), cell_of(l.exit), l.path_steps),
        l.path_steps is Some,
        fresh_items(l.hints@, stage_hint_cells(cols, rows, l.start, l.exit)),
{
    let (maze, generator) = if random_below(2) == 0 {
        (Maze::generate(cols, rows), MazeGenerator::Prim)
    } else {
        (Maze::generate_depth_first(cols, rows), MazeGenerator::Dfs)
    };
    let start = center_cell(cols, rows);
    proof {
        assert(0 <= center_index(cols as int) < cols);
        assert(0 <= center_index(rows as int) < rows);
        assert(maze@.in_bounds(cell_of(start)));
    }
    let exit = exit_farthest_on_perimeter(&maze, start);
    proof {
        let g = maze@;
        let s = cell_of(start);
        if cols * rows >= 2 {
            lemma_exit_candidate_exists(g, s);
        } else {
            assert(cols == 1 && rows == 1) by (nonlinear_arith)
                requires
                    cols >= 1,
                    rows >= 1,
                    cols * rows < 2,
            ;
            assert(s == (0int, 0int));
            assert(!exit_candidate(g, s, cell_of(exit))) by {
                if exists|c: Cell| #[trigger] exit_candidate(g, s, c) {
                    let c = choose|c: Cell| #[trigger] exit_candidate(g, s, c);
                    assert(c == (0int, 0int));
                }
            }
            assert(!(exists|c: Cell| #[trigger] exit_candidate(g, s, c))) by {
                if exists|c: Cell| #[trigger] exit_candidate(g, s, c) {
                    let c = choose|c: Cell| #[trigger] exit_candidate(g, s, c);
                    assert(c == (0int, 0int));
                }
            }
            assert(cell_of(exit) == fallback_exit(1, 1, s));
            lemma_walk_zero(g, s);
        }
    }
    layout_for_maze(maze, generator, start, exit)
}

/// A saved maze can be replayed when it has at least one cell and one wall entry per cell.
pub open spec fn replayable(width: usize, height: usize, len: nat) -> bool {
    width * height != 0 && width * height <= usize::MAX && len == width * height
}

/// The maze of a saved run, if its cells fit its size (at least one cell, one entry per
/// cell).
pub fn replay_maze(width: usize, height: usize, cells: Vec<u8>) -> (r: Option<Maze>)
    requires
        !(width * height > usize::MAX && cells@.len() == usize::MAX),
    ensures
        r is Some <==> replayable(width, height, cells@.len()),
        r matches Some(m) ==> m.wf() && m@ == (GridView {
            width: width as nat,
            height: height as nat,
            cells: cells@,
        }),
{
    let expected: usize = match width.checked_mul(height) {
        Some(p) => p,
        None => usize::MAX,
    };
    if expected == 0 || cells.len() != expected {
        return None;
    }
    Some(Maze::new(width, height, cells))
}

} // verus!
