//! Simulation core of a turn-based grid-world game: map generation,
//! visibility bookkeeping, occupancy indexing, combat and item rules, and the
//! turn state machine that sequences them.

pub mod constants;
pub mod rect;
pub mod components;
pub mod rng;
pub mod map;
pub mod connectivity;
pub mod indexing;
pub mod pathing;
pub mod visibility;
pub mod combat;
pub mod items;
pub mod ai;
pub mod player;
pub mod turn;
pub mod spawner;
pub mod render;
pub mod pipeline;
