//! Orthogonal grid mazes: wall-bit storage, perfect-maze generators, breadth-first
//! reachability and distances, start/exit placement, and the game rules built on them
//! (stage sizes, menus, run records, leaderboards).
use vstd::prelude::*;

pub mod counting;
pub mod game;
pub mod maze;
pub mod random;

verus! {

} // verus!
