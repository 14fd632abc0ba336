//! Deterministic core of a snake game on a square grid whose edges wrap around.
//!
//! The world advances one tick at a time. Randomness stays outside: when a reward cell is
//! awaited, the host draws cell indices and offers them with `World::place_reward_cell`
//! until one is taken.
pub mod grid;
pub mod laws;
pub mod snake;
pub mod world;

pub use grid::Direction;
pub use snake::{Snake, SnakeCell};
pub use world::{GameState, World, WorldView};
