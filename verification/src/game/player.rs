//! Grid-locked player movement (cell-to-cell), cardinal directions only.
//!
//! Compass (screen Y grows **down**): North = -Y, South = +Y, West = -X, East = +X.
use vstd::prelude::*;

use crate::maze::grid::{dir_bit, lemma_step_dir, nbr, Cell, E_BIT, N_BIT, S_BIT, W_BIT};
use crate::maze::solvability::cell_of;
use crate::maze::Maze;

verus! {

/// Which movement keys are held this frame (arrow keys or WASD).
#[derive(Clone, Copy, Debug, PartialEq, Eq, Structural)]
pub struct HeldKeys {
    pub up: bool,
    pub down: bool,
    pub left: bool,
    pub right: bool,
}

/// The direction the held keys ask for (0 north, 1 east, 2 south, 3 west): no diagonals,
/// up wins over down, down over right, right over left.
pub open spec fn chosen_dir(k: HeldKeys) -> Option<int> {
    if k.up {
        Some(0)
    } else if k.down {
        Some(2)
    } else if k.right {
        Some(1)
    } else if k.left {
        Some(3)
    } else {
        None
    }
}

/// The direction the held keys ask for, if any.
pub fn held_direction(k: HeldKeys) -> (r: Option<usize>)
    ensures
        r is None <==> chosen_dir(k) is None,
        r matches Some(d) ==> chosen_dir(k) == Some(d as int),
{
    if k.up {
        Some(0)
    } else if k.down {
        Some(2)
    } else if k.right {
        Some(1)
    } else if k.left {
        Some(3)
    } else {
        None
    }
}

/// The move that the keys ask for from `cell`: in direction `d`, the wall of `cell` on that
/// side must be absent and the neighbour must lie in the grid.
pub open spec fn move_target(m: Maze, cell: Cell, d: int) -> Option<Cell> {
    if m@.open(cell, dir_bit(d)) && m@.in_bounds(nbr(cell, d)) {
        Some(nbr(cell, d))
    } else {
        None
    }
}

/// The cell to walk to from `cell` with the keys held, if any. `blocked` records whether the
/// last asked-for move ran into a wall (it stays as it was when no key is held); a move off
/// the grid through an absent wall is refused without counting as blocked.
pub fn next_cell_from_input(maze: &Maze, cell: (usize, usize), keys: HeldKeys, blocked: &mut bool) -> (r:
    Option<(usize, usize)>)
    requires
        maze.wf(),
        maze@.in_bounds(cell_of(cell)),
    ensures
        chosen_dir(keys) is None ==> r is None && *final(blocked) == *old(blocked),
        chosen_dir(keys) matches Some(d) ==> {
            &&& *final(blocked) == !maze@.open(cell_of(cell), dir_bit(d))
            &&& r is Some <==> move_target(*maze, cell_of(cell), d) is Some
            &&& r matches Some(b) ==> move_target(*maze, cell_of(cell), d) == Some(cell_of(b))
        },
{
    let d = match held_direction(keys) {
        None => {
            return None;
        },
        Some(d) => d,
    };
    let (x, y) = cell;
    let w = maze.width();
    let h = maze.height();
    proof {
        crate::maze::grid::lemma_idx(maze@, cell_of(cell), cell_of(cell));
    }
    let bits = maze.walls(x, y).0;
    let bit: u8 = if d == 0 {
        N_BIT
    } else if d == 1 {
        E_BIT
    } else if d == 2 {
        S_BIT
    } else {
        W_BIT
    };
    assert(bit == dir_bit(d as int));
    if bits & bit != 0 {
        *blocked = true;
        return None;
    }
    *blocked = false;
    if d == 0 {
        if y == 0 {
            None
        } else {
            Some((x, y - 1))
        }
    } else if d == 2 {
        if y + 1 >= h {
            None
        } else {
            Some((x, y + 1))
        }
    } else if d == 1 {
        if x + 1 >= w {
            None
        } else {
            Some((x + 1, y))
        }
    } else {
        if x == 0 {
            None
        } else {
            Some((x - 1, y))
        }
    }
}

/// The player never passes through a wall or leaves the grid: every move the keys produce is
/// one step of the maze.
pub proof fn lemma_moves_are_steps(m: Maze, cell: Cell, d: int, b: Cell)
    requires
        0 <= d < 4,
        m@.in_bounds(cell),
        move_target(m, cell, d) == Some(b),
    ensures
        m@.step(cell, b),
{
    lemma_step_dir(m@, cell, d);
}

/// The held keys pick the matching compass direction (screen Y grows down): Up, or Up with
/// anything else, goes to `(x, y - 1)`; Down without Up to `(x, y + 1)`; Right with neither to
/// `(x + 1, y)`; Left alone to `(x - 1, y)`; no key, no move.
pub proof fn lemma_keys_pick_direction(k: HeldKeys, c: Cell)
    ensures
        k.up ==> (chosen_dir(k) matches Some(d) && nbr(c, d) == (c.0, c.1 - 1)),
        !k.up && k.down ==> (chosen_dir(k) matches Some(d) && nbr(c, d) == (c.0, c.1 + 1)),
        !k.up && !k.down && k.right ==> (chosen_dir(k) matches Some(d) && nbr(c, d) == (c.0 + 1, c.1)),
        !k.up && !k.down && !k.right && k.left ==> (chosen_dir(k) matches Some(d) && nbr(c, d) == (c.0 - 1, c.1)),
        !k.up && !k.down && !k.right && !k.left ==> chosen_dir(k) is None,
        chosen_dir(k) matches Some(d) ==> 0 <= d < 4,
{
}

} // verus!
