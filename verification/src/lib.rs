//! Tile streaming, occupancy and navigation-mesh logic of a tower-defense
//! world, on integers throughout.

pub mod agents;
pub mod coords;
mod dice;
pub mod heightmap;
pub mod navmesh;
pub mod occupancy;
pub mod scenery;
pub mod streamer;
pub mod terra;
