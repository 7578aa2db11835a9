//! Core simulation of autonomous chaser agents ("ghosts") pursuing a player
//! on a fixed grid maze.
//!
//! The crate covers the grid map and its textual level format, the fixed-step
//! movement timer, an A* pathfinder, the per-archetype targeting rules, the
//! ghost behavior state machine, and the per-step simulation driver.
//! Rendering, input collection and UI flow are left to the embedding
//! application.

pub mod vec2;
pub mod map;
pub mod movement;
pub mod pathfind;
pub mod rng;
pub mod ghost_agent;
pub mod player;
pub mod pellet;
pub mod score;
pub mod events;
pub mod game_state;
pub mod simulation;
