//! The navigation grid, its occupancy, and the pathfinder over it.

pub mod components;
pub mod route;
pub mod systems;
