//! A small dungeon crawler: the player descends through randomly built
//! levels while monsters, each played by a search tree, close in.

pub mod types;
pub mod board;
pub mod actor;
pub mod state;
pub mod rooms;
pub mod moves;
pub mod conclusion;
pub mod blast;
pub mod stagnation;
pub mod contention;
pub mod turns;
pub mod permitted;
pub mod spawn;
pub mod execute;
pub mod outcome;
pub mod laws;
