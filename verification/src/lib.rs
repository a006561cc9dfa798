//! Procedural level generation for a turn-based dungeon game.
//!
//! A level is a grid of zones, each of one category. It is generated by
//! narrowing, cell by cell, what each cell may still be:
//!
//! - `rules` holds which categories may stand beside which, per direction;
//! - `solver` collapses one cell at a time and propagates the rules until
//!   nothing changes, or reports a contradiction; what propagation leads
//!   to is stated in `settle`, which cell is collapsed next in `choice`;
//! - `builder` draws a size, a spawn and a boss portal, seeds the grid,
//!   runs the solver, and tries again within a number of attempts;
//! - `reach` and `level` hold the search that accepts a level only when its
//!   boss portal can be reached from its spawn.
//!
//! Randomness comes in as a sequence of words that depends on a seed
//! alone, so that a seed and a configuration determine the level.
//!
//! The remaining modules hold what the game around the levels shares with
//! them: zones, biomes, the boss, the stack of game states, and the
//! framing of messages between nodes.

mod chance;
pub mod battle_logic;
pub mod biome;
pub mod builder;
pub mod category;
pub mod choice;
pub mod domain;
pub mod enemies;
pub mod framing;
pub mod game;
pub mod grid;
pub mod items;
pub mod level;
pub mod player;
pub mod reach;
pub mod rules;
pub mod settle;
pub mod solver;
pub mod tally;
pub mod zone;
