//! Procedural world-generation and exploration-simulation core of a top-down
//! strategy game: deterministic terrain generation over a fixed-point height
//! field, constrained random base placement, seeded treasure rewards,
//! fog-of-war tracking, and the per-tick unit simulation with its
//! dig-to-loot state machine.
//!
//! Heights and world positions are held in fixed-point integers
//! (micro-units for heights, milli-units for positions) so that every
//! arithmetic step is exact and reproducible.

pub mod fixed;
pub mod terrain;
pub mod erosion;
pub mod rng;
pub mod placement;
pub mod treasure;
pub mod fog;
pub mod units;
pub mod sim;
pub mod world;
