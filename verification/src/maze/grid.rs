//! The mathematical model of a maze: a `width` × `height` grid of cells, each holding four
//! wall bits, and the passage graph that the absent walls define.
use vstd::prelude::*;

verus! {

/// Wall bit of the north side (towards `y - 1`).
pub const N_BIT: u8 = 1;
/// Wall bit of the east side (towards `x + 1`).
pub const E_BIT: u8 = 2;
/// Wall bit of the south side (towards `y + 1`).
pub const S_BIT: u8 = 4;
/// Wall bit of the west side (towards `x - 1`).
pub const W_BIT: u8 = 8;
/// All four walls.
pub const ALL_BITS: u8 = 15;

/// Abstract maze: dimensions and the row-major wall bits.
pub ghost struct GridView {
    pub width: nat,
    pub height: nat,
    pub cells: Seq<u8>,
}

/// A cell position `(x, y)`.
pub type Cell = (int, int);

impl GridView {
    /// The storage holds exactly one entry per cell.
    pub open spec fn wf(self) -> bool {
        self.cells.len() == self.width * self.height
    }

    pub open spec fn in_bounds(self, c: Cell) -> bool {
        0 <= c.0 < self.width && 0 <= c.1 < self.height
    }

    /// Row-major index of a cell.
    pub open spec fn idx(self, c: Cell) -> int {
        c.1 * self.width + c.0
    }

    /// Wall bits of a cell.
    pub open spec fn bits(self, c: Cell) -> u8 {
        self.cells[self.idx(c)]
    }

    /// The wall `bit` of cell `c` is absent.
    pub open spec fn open(self, c: Cell, bit: u8) -> bool {
        self.bits(c) & bit == 0
    }

    /// One move from `a` to `b`: both in the grid, `b` a neighbour of `a`, and the wall of `a`
    /// on that side absent (the move reads only the wall bits of the cell it leaves).
    pub open spec fn step(self, a: Cell, b: Cell) -> bool {
        &&& self.in_bounds(a)
        &&& self.in_bounds(b)
        &&& {
            ||| b == (a.0, a.1 - 1) && self.open(a, N_BIT)
            ||| b == (a.0, a.1 + 1) && self.open(a, S_BIT)
            ||| b == (a.0 - 1, a.1) && self.open(a, W_BIT)
            ||| b == (a.0 + 1, a.1) && self.open(a, E_BIT)
        }
    }

    /// `p` lists in-grid cells, each reached from the previous one by one step.
    pub open spec fn path_ok(self, p: Seq<Cell>) -> bool
        decreases p.len(),
    {
        if p.len() == 0 {
            false
        } else if p.len() == 1 {
            self.in_bounds(p[0])
        } else {
            self.path_ok(p.drop_last()) && self.step(p[p.len() - 2], p[p.len() - 1])
        }
    }

    /// There is a walk of exactly `k` moves from `s` to `v`.
    pub open spec fn walk(self, s: Cell, v: Cell, k: nat) -> bool {
        exists|p: Seq<Cell>|
            #[trigger] self.path_ok(p) && p.len() == k + 1 && p[0] == s && p[k as int] == v
    }

    /// `v` can be reached from `s`.
    pub open spec fn reachable(self, s: Cell, v: Cell) -> bool {
        exists|k: nat| #[trigger] self.walk(s, v, k)
    }

    /// `k` is the length of a shortest walk from `s` to `v`.
    pub open spec fn shortest(self, s: Cell, v: Cell, k: nat) -> bool {
        &&& self.walk(s, v, k)
        &&& forall|j: nat| j < k ==> !#[trigger] self.walk(s, v, j)
    }

    /// The length of a shortest walk from `s` to `v` (meaningful when `v` is reachable).
    pub open spec fn distance(self, s: Cell, v: Cell) -> nat {
        choose|k: nat| self.shortest(s, v, k)
    }

    /// Every cell can be reached from every cell.
    pub open spec fn fully_connected(self) -> bool {
        forall|a: Cell, b: Cell|
            self.in_bounds(a) && self.in_bounds(b) ==> #[trigger] self.reachable(a, b)
    }

    /// Passages are two-way: whenever a wall is absent, so is the facing wall of the neighbour.
    pub open spec fn symmetric(self) -> bool {
        forall|a: Cell, b: Cell| #[trigger] self.step(a, b) ==> self.step(b, a)
    }

    /// The outer boundary is closed: no cell on an edge lacks its wall on that edge.
    pub open spec fn border_closed(self) -> bool {
        forall|c: Cell|
            #![trigger self.bits(c)]
            self.in_bounds(c) ==> {
                &&& c.1 == 0 ==> !self.open(c, N_BIT)
                &&& c.0 == self.width - 1 ==> !self.open(c, E_BIT)
                &&& c.1 == self.height - 1 ==> !self.open(c, S_BIT)
                &&& c.0 == 0 ==> !self.open(c, W_BIT)
            }
    }

    /// No cell holds bits beyond the four walls.
    pub open spec fn only_wall_bits(self) -> bool {
        forall|i: int| 0 <= i < self.cells.len() ==> #[trigger] self.cells[i] <= ALL_BITS
    }

    /// A perfect-maze layout: well formed, two-way passages, a closed boundary, only wall
    /// bits, and every cell reachable from every cell.
    pub open spec fn connected_maze(self) -> bool {
        &&& self.wf()
        &&& self.symmetric()
        &&& self.border_closed()
        &&& self.only_wall_bits()
        &&& self.fully_connected()
    }
}

/// The neighbour of `c` in direction `d` (0 north, 1 east, 2 south, 3 west).
pub open spec fn nbr(c: Cell, d: int) -> Cell {
    if d == 0 {
        (c.0, c.1 - 1)
    } else if d == 1 {
        (c.0 + 1, c.1)
    } else if d == 2 {
        (c.0, c.1 + 1)
    } else {
        (c.0 - 1, c.1)
    }
}

/// The wall bit of direction `d`.
pub open spec fn dir_bit(d: int) -> u8 {
    if d == 0 {
        N_BIT
    } else if d == 1 {
        E_BIT
    } else if d == 2 {
        S_BIT
    } else {
        W_BIT
    }
}

/// The direction facing `d`.
pub open spec fn opposite(d: int) -> int {
    if d < 2 {
        d + 2
    } else {
        d - 2
    }
}

pub open spec fn is_wall_bit(b: u8) -> bool {
    b == N_BIT || b == E_BIT || b == S_BIT || b == W_BIT
}

/// Clearing one wall bit leaves every other wall bit as it was and keeps values within the
/// four wall bits.
pub proof fn lemma_clear_bit(v: u8, m: u8, b: u8)
    by (bit_vector)
    requires
        m == 1 || m == 2 || m == 4 || m == 8,
        b == 1 || b == 2 || b == 4 || b == 8,
    ensures
        ((v & !m) & b == 0) == (b == m || v & b == 0),
        v <= 15 ==> (v & !m) <= 15,
{
}

/// All four walls are present in a fresh cell.
pub proof fn lemma_all_bits(b: u8)
    by (bit_vector)
    requires
        b == 1 || b == 2 || b == 4 || b == 8,
    ensures
        (15u8 & b) != 0,
{
}

/// Row-major indices of in-grid cells are in range and distinct.
pub proof fn lemma_idx(g: GridView, a: Cell, b: Cell)
    requires
        g.in_bounds(a),
        g.in_bounds(b),
    ensures
        0 <= g.idx(a) < g.width * g.height,
        g.idx(a) == g.idx(b) ==> a == b,
{
    lemma_idx_bound(a.0, a.1, g.width as int, g.height as int);
    if g.idx(a) == g.idx(b) {
        lemma_idx_inj(a.0, a.1, b.0, b.1, g.width as int);
    }
}

proof fn lemma_idx_bound(x: int, y: int, w: int, h: int)
    by (nonlinear_arith)
    requires
        0 <= x < w,
        0 <= y < h,
    ensures
        0 <= y * w + x < w * h,
{
}

proof fn lemma_idx_inj(x1: int, y1: int, x2: int, y2: int, w: int)
    requires
        0 <= x1 < w,
        0 <= x2 < w,
        0 <= y1,
        0 <= y2,
        y1 * w + x1 == y2 * w + x2,
    ensures
        x1 == x2,
        y1 == y2,
{
    if y1 < y2 {
        assert(y1 * w + w <= y2 * w) by (nonlinear_arith)
            requires
                y1 < y2,
                w > 0,
        ;
    } else if y2 < y1 {
        assert(y2 * w + w <= y1 * w) by (nonlinear_arith)
            requires
                y2 < y1,
                w > 0,
        ;
    }
}

/// A move in direction `d` is a step exactly when both cells are in the grid and the wall of
/// that side is absent.
pub proof fn lemma_step_dir(g: GridView, a: Cell, d: int)
    requires
        0 <= d < 4,
    ensures
        g.step(a, nbr(a, d)) == (g.in_bounds(a) && g.in_bounds(nbr(a, d)) && g.open(
            a,
            dir_bit(d),
        )),
{
}

/// A shortest walk length is unique, and it is the distance.
pub proof fn lemma_shortest_is_distance(g: GridView, s: Cell, v: Cell, k: nat)
    requires
        g.shortest(s, v, k),
    ensures
        g.distance(s, v) == k,
        g.reachable(s, v),
{
    let j = g.distance(s, v);
    assert(g.shortest(s, v, j));
    if j < k {
        assert(!g.walk(s, v, j));
    } else if k < j {
        assert(!g.walk(s, v, k));
    }
}

/// Every step goes in one of the four directions.
pub proof fn lemma_step_has_dir(g: GridView, a: Cell, b: Cell) -> (d: int)
    requires
        g.step(a, b),
    ensures
        0 <= d < 4,
        b == nbr(a, d),
        g.open(a, dir_bit(d)),
{
    if b == (a.0, a.1 - 1) && g.open(a, N_BIT) {
        0
    } else if b == (a.0 + 1, a.1) && g.open(a, E_BIT) {
        1
    } else if b == (a.0, a.1 + 1) && g.open(a, S_BIT) {
        2
    } else {
        3
    }
}

/// Every cell of a path lies in the grid.
pub proof fn lemma_path_in_bounds(g: GridView, p: Seq<Cell>)
    requires
        g.path_ok(p),
    ensures
        forall|i: int| 0 <= i < p.len() ==> g.in_bounds(#[trigger] p[i]),
    decreases p.len(),
{
    if p.len() > 1 {
        lemma_path_in_bounds(g, p.drop_last());
        assert forall|i: int| 0 <= i < p.len() implies g.in_bounds(#[trigger] p[i]) by {
            if i < p.len() - 1 {
                assert(p[i] == p.drop_last()[i]);
            }
        }
    }
}

/// Walks start and end inside the grid.
pub proof fn lemma_walk_in_bounds(g: GridView, s: Cell, v: Cell, k: nat)
    requires
        g.walk(s, v, k),
    ensures
        g.in_bounds(s),
        g.in_bounds(v),
        k == 0 ==> v == s,
{
    let p = choose|p: Seq<Cell>|
        #[trigger] g.path_ok(p) && p.len() == k + 1 && p[0] == s && p[k as int] == v;
    lemma_path_in_bounds(g, p);
}

/// A walk of at least one move ends with a step from a cell reached one move earlier.
pub proof fn lemma_walk_pred(g: GridView, s: Cell, v: Cell, k: nat) -> (u: Cell)
    requires
        g.walk(s, v, k),
        k > 0,
    ensures
        g.walk(s, u, (k - 1) as nat),
        g.step(u, v),
{
    let p = choose|p: Seq<Cell>|
        #[trigger] g.path_ok(p) && p.len() == k + 1 && p[0] == s && p[k as int] == v;
    let q = p.drop_last();
    assert(q[0] == s);
    assert(g.path_ok(q) && q.len() == (k - 1) as nat + 1 && q[0] == s && q[(k - 1) as int]
        == p[k - 1]);
    p[k - 1]
}

/// The empty walk.
pub proof fn lemma_walk_zero(g: GridView, s: Cell)
    requires
        g.in_bounds(s),
    ensures
        g.walk(s, s, 0),
        g.reachable(s, s),
{
    let p = seq![s];
    assert(g.path_ok(p) && p.len() == 0 + 1 && p[0] == s && p[0] == s);
    assert(g.walk(s, s, 0));
}

/// A walk extended by one step.
pub proof fn lemma_walk_extend(g: GridView, s: Cell, u: Cell, v: Cell, k: nat)
    requires
        g.walk(s, u, k),
        g.step(u, v),
    ensures
        g.walk(s, v, k + 1),
        g.reachable(s, v),
{
    let p = choose|p: Seq<Cell>|
        #[trigger] g.path_ok(p) && p.len() == k + 1 && p[0] == s && p[k as int] == u;
    let q = p.push(v);
    assert(q.drop_last() =~= p);
    assert(g.path_ok(q) && q.len() == (k + 1) + 1 && q[0] == s && q[(k + 1) as int] == v);
    assert(g.walk(s, v, k + 1));
}

/// Two walks joined end to end.
pub proof fn lemma_walk_concat(g: GridView, a: Cell, b: Cell, c: Cell, k1: nat, k2: nat)
    requires
        g.walk(a, b, k1),
        g.walk(b, c, k2),
    ensures
        g.walk(a, c, k1 + k2),
    decreases k2,
{
    if k2 == 0 {
    } else {
        let u = lemma_walk_pred(g, b, c, k2);
        lemma_walk_concat(g, a, b, u, k1, (k2 - 1) as nat);
        lemma_walk_extend(g, a, u, c, (k1 + k2 - 1) as nat);
    }
}

/// Reachability is transitive.
pub proof fn lemma_reachable_trans(g: GridView, a: Cell, b: Cell, c: Cell)
    requires
        g.reachable(a, b),
        g.reachable(b, c),
    ensures
        g.reachable(a, c),
{
    let k1 = choose|k: nat| #[trigger] g.walk(a, b, k);
    let k2 = choose|k: nat| #[trigger] g.walk(b, c, k);
    lemma_walk_concat(g, a, b, c, k1, k2);
}

/// With two-way passages a walk can be taken backwards.
pub proof fn lemma_walk_reverse(g: GridView, a: Cell, b: Cell, k: nat)
    requires
        g.symmetric(),
        g.walk(a, b, k),
    ensures
        g.walk(b, a, k),
    decreases k,
{
    if k > 0 {
        let u = lemma_walk_pred(g, a, b, k);
        lemma_walk_reverse(g, a, u, (k - 1) as nat);
        assert(g.step(b, u));
        lemma_walk_in_bounds(g, a, b, k);
        lemma_walk_zero(g, b);
        lemma_walk_extend(g, b, b, u, 0);
        lemma_walk_concat(g, b, u, a, 1, (k - 1) as nat);
    }
}

/// A walk in `g` is a walk in any grid of the same size in which every passage of `g` is
/// still open.
pub proof fn lemma_walk_mono(g: GridView, g2: GridView, s: Cell, v: Cell, k: nat)
    requires
        g.walk(s, v, k),
        g2.width == g.width,
        g2.height == g.height,
        forall|a: Cell, b: Cell| #[trigger] g.step(a, b) ==> g2.step(a, b),
    ensures
        g2.walk(s, v, k),
    decreases k,
{
    if k > 0 {
        let u = lemma_walk_pred(g, s, v, k);
        lemma_walk_mono(g, g2, s, u, (k - 1) as nat);
        lemma_walk_extend(g2, s, u, v, (k - 1) as nat);
    } else {
        lemma_walk_in_bounds(g, s, v, k);
        lemma_walk_zero(g2, s);
    }
}

/// When every cell is reachable from one cell and passages are two-way, every cell is
/// reachable from every cell.
pub proof fn lemma_connected_from_root(g: GridView, r: Cell)
    requires
        g.symmetric(),
        g.in_bounds(r),
        forall|c: Cell| g.in_bounds(c) ==> #[trigger] g.reachable(r, c),
    ensures
        g.fully_connected(),
{
    assert forall|a: Cell, b: Cell| g.in_bounds(a) && g.in_bounds(b) implies #[trigger] g.reachable(
        a,
        b,
    ) by {
        assert(g.reachable(r, a));
        let k = choose|k: nat| #[trigger] g.walk(r, a, k);
        lemma_walk_reverse(g, r, a, k);
        assert(g.reachable(r, b));
        lemma_reachable_trans(g, a, r, b);
    }
}

/// A set of cells that holds one cell and is closed under the four in-grid neighbours
/// holds every cell of the grid.
pub proof fn lemma_closed_set_covers(w: int, h: int, p: spec_fn(Cell) -> bool, s: Cell)
    requires
        0 <= s.0 < w,
        0 <= s.1 < h,
        p(s),
        forall|c: Cell, d: int|
            0 <= c.0 < w && 0 <= c.1 < h && 0 <= d < 4 && 0 <= nbr(c, d).0 < w && 0 <= nbr(
                c,
                d,
            ).1 < h && #[trigger] p(c) ==> #[trigger] p(nbr(c, d)),
    ensures
        forall|c: Cell| 0 <= c.0 < w && 0 <= c.1 < h ==> #[trigger] p(c),
{
    // walk west to the first column, then north to the corner
    lemma_closed_line_west(w, h, p, s, s.0);
    lemma_closed_line_north(w, h, p, (0, s.1), s.1);
    assert forall|c: Cell| 0 <= c.0 < w && 0 <= c.1 < h implies #[trigger] p(c) by {
        lemma_closed_line_south(w, h, p, c.1);
        lemma_closed_line_east(w, h, p, c.1, c.0);
    }
}

proof fn lemma_closed_line_west(w: int, h: int, p: spec_fn(Cell) -> bool, s: Cell, k: int)
    requires
        0 <= s.0 < w,
        0 <= s.1 < h,
        0 <= k <= s.0,
        p(s),
        forall|c: Cell, d: int|
            0 <= c.0 < w && 0 <= c.1 < h && 0 <= d < 4 && 0 <= nbr(c, d).0 < w && 0 <= nbr(
                c,
                d,
            ).1 < h && #[trigger] p(c) ==> #[trigger] p(nbr(c, d)),
    ensures
        p((s.0 - k, s.1)),
    decreases k,
{
    if k > 0 {
        lemma_closed_line_west(w, h, p, s, k - 1);
        assert(nbr((s.0 - (k - 1), s.1), 3) == (s.0 - k, s.1));
    }
}

proof fn lemma_closed_line_north(w: int, h: int, p: spec_fn(Cell) -> bool, s: Cell, k: int)
    requires
        0 <= s.0 < w,
        0 <= s.1 < h,
        0 <= k <= s.1,
        p(s),
        forall|c: Cell, d: int|
            0 <= c.0 < w && 0 <= c.1 < h && 0 <= d < 4 && 0 <= nbr(c, d).0 < w && 0 <= nbr(
                c,
                d,
            ).1 < h && #[trigger] p(c) ==> #[trigger] p(nbr(c, d)),
    ensures
        p((s.0, s.1 - k)),
    decreases k,
{
    if k > 0 {
        lemma_closed_line_north(w, h, p, s, k - 1);
        assert(nbr((s.0, s.1 - (k - 1)), 0) == (s.0, s.1 - k));
    }
}

proof fn lemma_closed_line_south(w: int, h: int, p: spec_fn(Cell) -> bool, y: int)
    requires
        0 < w,
        0 <= y < h,
        p((0, 0)),
        forall|c: Cell, d: int|
            0 <= c.0 < w && 0 <= c.1 < h && 0 <= d < 4 && 0 <= nbr(c, d).0 < w && 0 <= nbr(
                c,
                d,
            ).1 < h && #[trigger] p(c) ==> #[trigger] p(nbr(c, d)),
    ensures
        p((0, y)),
    decreases y,
{
    if y > 0 {
        lemma_closed_line_south(w, h, p, y - 1);
        assert(nbr((0, y - 1), 2) == (0int, y));
    }
}

proof fn lemma_closed_line_east(w: int, h: int, p: spec_fn(Cell) -> bool, y: int, x: int)
    requires
        0 <= x < w,
        0 <= y < h,
        p((0, y)),
        forall|c: Cell, d: int|
            0 <= c.0 < w && 0 <= c.1 < h && 0 <= d < 4 && 0 <= nbr(c, d).0 < w && 0 <= nbr(
                c,
                d,
            ).1 < h && #[trigger] p(c) ==> #[trigger] p(nbr(c, d)),
    ensures
        p((x, y)),
    decreases x,
{
    if x > 0 {
        lemma_closed_line_east(w, h, p, y, x - 1);
        assert(nbr((x - 1, y), 1) == (x, y));
    }
}

/// Every storage index names the cell `(i % width, i / width)`.
pub proof fn lemma_cell_of_index(g: GridView, i: int)
    requires
        g.width > 0,
        0 <= i < g.width * g.height,
    ensures
        g.in_bounds((i % g.width as int, i / g.width as int)),
        g.idx((i % g.width as int, i / g.width as int)) == i,
{
    let w = g.width as int;
    let h = g.height as int;
    assert(i == (i / w) * w + i % w) by (nonlinear_arith)
        requires
            w > 0,
    ;
    assert(0 <= i % w < w) by (nonlinear_arith)
        requires
            w > 0,
    ;
    assert(0 <= i / w < h) by (nonlinear_arith)
        requires
            w > 0,
            0 <= i < w * h,
    ;
    assert((i / w) * w == i / w * w);
}

} // verus!
