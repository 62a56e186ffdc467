//! Verified core of a 2D survival-arena simulation: horde steering with
//! pairwise repulsion, a targetability gate, projectile resolution, a
//! health/death pipeline, and experience collection feeding player
//! progression. All geometry is integer-valued; world positions and movement
//! accumulators live on an integer grid, so normalisation of a zero vector is
//! exactly zero and no arithmetic can produce NaN or infinity.

pub mod abilities;
pub mod arena;
pub mod config;
pub mod drops;
pub mod enemies;
pub mod events;
pub mod experience;
pub mod grid;
pub mod player;
pub mod rng;
pub mod steering;
pub mod ui;
pub mod vec2;
pub mod world;
