//! Grid maze: each cell stores four wall bits (north, east, south, west). Passages are
//! **absent** walls.
//!
//! Two classic **perfect maze** generators are provided (spanning trees of the grid graph):
//! **recursive backtracking** (depth-first; longer corridors) and **randomized Prim** (often
//! shorter branches).
use vstd::prelude::*;

pub mod carve;
pub mod generate;
pub mod generate_prim;
pub mod grid;
pub mod layout;
pub mod passages;
pub mod solvability;

pub use grid::{Cell, GridView};
pub use layout::{center_cell, exit_farthest_on_perimeter};
pub use solvability::{bfs_distances, is_reachable, shortest_path_len};

use passages::passage_count;
use solvability::{cell_of, exact_distances};

verus! {

/// Wall bits on a single cell. `1` means a solid wall.
#[derive(Clone, Copy, Debug, PartialEq, Eq, Structural)]
pub struct Walls(pub u8);

impl Walls {
    pub const NORTH: u8 = 1;
    pub const EAST: u8 = 2;
    pub const SOUTH: u8 = 4;
    pub const WEST: u8 = 8;
    pub const ALL: u8 = 15;
}

/// Rectangular maze: `width` × `height` cells, row-major in `cells`.
#[derive(Clone, Debug)]
pub struct Maze {
    width: usize,
    height: usize,
    cells: Vec<u8>,
}

impl View for Maze {
    type V = GridView;

    closed spec fn view(&self) -> GridView {
        GridView { width: self.width as nat, height: self.height as nat, cells: self.cells@ }
    }
}

impl Maze {
    /// The storage holds one entry per cell.
    pub open spec fn wf(&self) -> bool {
        self@.wf()
    }

    /// Builds a maze from row-major wall bits; `cells` holds one entry per cell.
    pub fn new(width: usize, height: usize, cells: Vec<u8>) -> (m: Self)
        requires
            cells@.len() == width * height,
        ensures
            m.wf(),
            m@ == (GridView { width: width as nat, height: height as nat, cells: cells@ }),
    {
        Maze { width, height, cells }
    }

    pub fn width(&self) -> (r: usize)
        ensures
            r == self@.width,
    {
        self.width
    }

    pub fn height(&self) -> (r: usize)
        ensures
            r == self@.height,
    {
        self.height
    }

    /// Wall bits of cell `(x, y)`; the row-major index `y * width + x` must name a cell.
    pub fn walls(&self, x: usize, y: usize) -> (r: Walls)
        requires
            self.wf(),
            y * self@.width + x < self@.width * self@.height,
        ensures
            r.0 == self@.cells[y * self@.width + x],
    {
        let _n = self.cells.len();
        Walls(self.cells[y * self.width + x])
    }

    /// Raw row-major wall-bit storage for persistence/replay.
    pub fn cells(&self) -> (r: &[u8])
        ensures
            r@ == self@.cells,
    {
        self.cells.as_slice()
    }

    /// Default: **randomized Prim** (often shorter branches; similar to many “Prim” mazes
    /// online). The result is a perfect maze: every cell reachable from every cell, through
    /// one passage fewer than there are cells (a spanning tree of the grid).
    pub fn generate(width: usize, height: usize) -> (m: Self)
        requires
            width >= 1,
            height >= 1,
            width * height <= usize::MAX,
        ensures
            m.wf(),
            m@.width == width,
            m@.height == height,
            m@.connected_maze(),
            passage_count(m@) + 1 == width * height,
    {
        generate_prim::generate_randomized_prim(width, height)
    }

    /// **Recursive backtracking** (depth-first): tends to produce longer straight corridors
    /// than [`Maze::generate`]. The result is a perfect maze as well.
    pub fn generate_depth_first(width: usize, height: usize) -> (m: Self)
        requires
            width >= 1,
            height >= 1,
            width * height <= usize::MAX,
        ensures
            m.wf(),
            m@.width == width,
            m@.height == height,
            m@.connected_maze(),
            passage_count(m@) + 1 == width * height,
    {
        generate::generate_recursive_backtracking(width, height)
    }

    /// Number of cells, `width * height` (the storage length).
    pub(crate) fn cell_count(&self) -> (n: usize)
        requires
            self.wf(),
        ensures
            n == self@.width * self@.height,
    {
        self.cells.len()
    }
}

/// The maze is non-empty and every cell can be reached from the top-left corner.
pub open spec fn reaches_all_from_corner(g: GridView) -> bool {
    &&& g.width > 0
    &&& g.height > 0
    &&& forall|c: Cell| g.in_bounds(c) ==> #[trigger] g.reachable((0, 0), c)
}

/// One connected component: a breadth-first search from the corner reaches every cell.
pub fn is_fully_connected(maze: &Maze) -> (r: bool)
    requires
        maze.wf(),
    ensures
        r == reaches_all_from_corner(maze@),
{
    let ghost g = maze@;
    let w = maze.width();
    let h = maze.height();
    if w == 0 || h == 0 {
        return false;
    }
    let d = bfs_distances(maze, (0, 0));
    let n = d.len();
    let mut i: usize = 0;
    while i < n
        invariant
            g == maze@,
            n == d@.len(),
            n == w * h,
            w == g.width,
            h == g.height,
            w > 0,
            exact_distances(g, (0, 0), d@),
            forall|j: int| 0 <= j < i ==> d@[j] != usize::MAX,
        decreases n - i,
    {
        if d[i] == usize::MAX {
            proof {
                let c = ((i as int) % (w as int), (i as int) / (w as int));
                grid::lemma_cell_of_index(g, i as int);
                assert(g.idx(c) == i);
            }
            return false;
        }
        i += 1;
    }
    proof {
        assert forall|c: Cell| g.in_bounds(c) implies #[trigger] g.reachable((0, 0), c) by {
            grid::lemma_idx(g, c, c);
            assert(g.idx(c) == g.idx(c));
        }
    }
    true
}

/// A generated maze passes the connectivity check: in a perfect-maze layout every cell is
/// reachable from the corner.
pub proof fn lemma_connected_maze_reaches_all(g: GridView)
    requires
        g.connected_maze(),
        g.width > 0,
        g.height > 0,
    ensures
        reaches_all_from_corner(g),
{
    assert forall|c: Cell| g.in_bounds(c) implies #[trigger] g.reachable((0, 0), c) by {
        assert(g.in_bounds((0, 0)));
    }
}

/// Rebuilding a maze from its own size and raw row-major cells gives the same maze: the
/// same size, cells and walls (what replaying a saved run relies on). A copy of `cells()`
/// made with `vstd::slice::slice_to_vec` has the same view, so it rebuilds the same maze.
pub proof fn lemma_rebuild_from_cells(m: Maze, rebuilt: Maze)
    requires
        m.wf(),
        rebuilt@ == (GridView { width: m@.width, height: m@.height, cells: m@.cells }),
    ensures
        rebuilt@ == m@,
        rebuilt.wf(),
        forall|c: Cell| #[trigger] rebuilt@.bits(c) == m@.bits(c),
{
}

} // verus!
