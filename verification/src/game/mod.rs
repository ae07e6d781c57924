//! The game's rules: stage sizes and hint placement, the story phases, the startup menus and
//! the saved-runs list, the in-game prompts and win menu, grid movement, nickname input, and
//! the save log's listings, continue lookup and leaderboard.
use vstd::prelude::*;

pub mod account_management;
pub mod menu;
pub mod player;
pub mod progress;
pub mod session;
pub mod sound;
pub mod stage;
pub mod startup;
pub mod story;
pub mod text;
pub mod world_render;

verus! {

} // verus!
