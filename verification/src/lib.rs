//! A two-player connection game engine: boards, move rules, the search that
//! decides whether a player has joined their two edges, and the turn machine.
//!
//! Two games share the engine. On the hexagonal board (`board`, `region`,
//! `game`) a move claims one cell. On the square stacking board (`stacking`,
//! `stack_game`) a move lays a block over two cells that touch. In both a
//! player wins by joining their two edges of the board with a chain of their
//! own cells; `search` decides that for any graph, and `claim` and `holding`
//! present a player's cells as one.

pub mod board;
pub mod cell_map;
pub mod claim;
pub mod error;
pub mod game;
pub mod holding;
pub mod region;
pub mod search;
pub mod seqs;
pub mod stack_game;
pub mod stacking;
