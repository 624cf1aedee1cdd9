//! Movement-and-avoidance simulation core for a 2D defense game.
//!
//! Mobile agents seek a fixed target across a grid partially blocked by
//! static obstacles, pushed or pulled by influence emitters, colliding
//! with solids, and retracing their recorded route once their attention
//! runs out.  All world quantities are fixed-point integers measured in
//! thousandths of a world unit.

pub mod enemies;
pub mod force;
pub mod grid;
pub mod pathfinding;
pub mod physics;
mod rng;
pub mod vec2;
pub mod wave;
