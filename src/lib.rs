//! A voxel sandbox engine: a sparse block grid, seeded world generation,
//! ray marching against the grid, gravity with single-cell collision, and
//! the pursuit rules of a monster that chases the player.
//!
//! Continuous positions are fixed-point integers in thousandths of a block,
//! so that every rule here is exact integer arithmetic.
pub mod agent;
pub mod geom;
pub mod grid;
pub mod interact;
pub mod physics;
pub mod player;
pub mod random;
pub mod ray;
pub mod worldgen;
